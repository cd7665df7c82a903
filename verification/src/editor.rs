//! A one-line text field with a caret and a selection.
//!
//! The query box, the prompt and every form field are such fields, so moving,
//! selecting and editing work the same everywhere. Positions are given to the
//! outside as byte offsets into the UTF-8 text and always fall on a character.
use vstd::prelude::*;
use vstd::string::*;

use crate::offsets::{self, byte_len, index_at, offset_of, part};
use crate::text::{self, chars_of, same_chars, slice_of, string_of, white};

verus! {

/// Where a caret movement goes.
#[derive(Clone, Copy, PartialEq, Eq, Structural, Debug)]
pub enum Motion {
    Left,
    Right,
    Home,
    End,
}

/// One editing operation.
#[derive(Debug)]
pub enum Edit<'a> {
    /// One UTF-16 unit as a key delivers it; surrogate pairs are put together.
    Char(u16),
    /// Typed or pasted text, put in place of the selection.
    Text(&'a str),
    /// Delete backwards: the selection, else one character, else (`word`) to
    /// the start of the word before the caret.
    Backspace { word: bool },
    /// Delete forwards: the selection, else one character, else (`word`) to
    /// the start of the next word.
    Delete { word: bool },
    /// Move the caret. `select` extends the selection, `word` jumps by words.
    Move { motion: Motion, word: bool, select: bool },
    SelectAll,
}

/// A label with an editable value: one row of a form.
pub struct FormEntry {
    pub label: String,
    pub value: TextField,
}

/// What a field holds, with positions counted in characters.
#[verifier::ext_equal]
pub struct Field {
    pub text: Seq<char>,
    pub caret: int,
    /// The other end of the selection; equal to `caret` when nothing is
    /// selected.
    pub anchor: int,
    /// A high surrogate waiting for its pair.
    pub pending: Option<u16>,
}

impl Field {
    /// Caret and anchor lie within the text, and only a high surrogate waits.
    pub open spec fn valid(self) -> bool {
        &&& 0 <= self.caret <= self.text.len()
        &&& 0 <= self.anchor <= self.text.len()
        &&& self.pending matches Some(unit) ==> is_high_surrogate(unit)
    }

    pub open spec fn has_selection(self) -> bool {
        self.caret != self.anchor
    }

    /// Where the selection starts.
    pub open spec fn low(self) -> int {
        if self.caret < self.anchor {
            self.caret
        } else {
            self.anchor
        }
    }

    /// Where the selection ends.
    pub open spec fn high(self) -> int {
        if self.caret < self.anchor {
            self.anchor
        } else {
            self.caret
        }
    }

    /// The selected characters.
    pub open spec fn selected(self) -> Seq<char> {
        self.text.subrange(self.low(), self.high())
    }

    /// The field without the characters from `a` to `b`, caret where they
    /// were.
    pub open spec fn without(self, a: int, b: int) -> Field {
        Field {
            text: self.text.take(a) + self.text.skip(b),
            caret: a,
            anchor: a,
            pending: self.pending,
        }
    }

    /// The field without its selection.
    pub open spec fn unselected(self) -> Field {
        if self.has_selection() {
            self.without(self.low(), self.high())
        } else {
            self
        }
    }

    /// `s` in place of the selection, caret after it.
    pub open spec fn inserted(self, s: Seq<char>) -> Field {
        let f = self.unselected();
        Field {
            text: f.text.take(f.caret) + s + f.text.skip(f.caret),
            caret: f.caret + s.len(),
            anchor: f.caret + s.len(),
            pending: f.pending,
        }
    }

    /// The field with another pending surrogate.
    pub open spec fn waiting(self, pending: Option<u16>) -> Field {
        Field { pending, ..self }
    }

    /// Typing one UTF-16 unit. What is typed over a selection that holds the
    /// same changes no text.
    pub open spec fn typed(self, unit: u16) -> (Field, bool) {
        let f = if is_high_surrogate(unit) {
            self.waiting(Some(unit))
        } else if is_low_surrogate(unit) {
            match self.pending {
                Some(high) => self.waiting(None).inserted(seq![pair_code(high, unit) as char]),
                None => self,
            }
        } else {
            self.waiting(None).inserted(seq![unit as char])
        };
        (f, f.text != self.text)
    }

    /// Pasting a text.
    pub open spec fn pasted(self, s: Seq<char>) -> (Field, bool) {
        let f = self.inserted(s);
        (f, f.text != self.text)
    }

    pub open spec fn backspaced(self, word: bool) -> (Field, bool) {
        if self.has_selection() {
            (self.unselected(), true)
        } else if self.caret == 0 {
            (self, false)
        } else if word {
            (self.without(prev_word(self.text, self.caret), self.caret), true)
        } else {
            (self.without(self.caret - 1, self.caret), true)
        }
    }

    pub open spec fn deleted(self, word: bool) -> (Field, bool) {
        if self.has_selection() {
            (self.unselected(), true)
        } else if self.caret == self.text.len() {
            (self, false)
        } else if word {
            (self.without(self.caret, next_word(self.text, self.caret)), true)
        } else {
            (self.without(self.caret, self.caret + 1), true)
        }
    }

    /// Where a motion takes the caret.
    pub open spec fn target(self, motion: Motion, word: bool) -> int {
        match motion {
            Motion::Left => if word {
                prev_word(self.text, self.caret)
            } else if self.caret > 0 {
                self.caret - 1
            } else {
                0
            },
            Motion::Right => if word {
                next_word(self.text, self.caret)
            } else if self.caret < self.text.len() {
                self.caret + 1
            } else {
                self.caret
            },
            Motion::Home => 0,
            Motion::End => self.text.len() as int,
        }
    }

    /// Moving the caret: a plain arrow over a selection collapses it to the
    /// near end; any other motion goes from the caret.
    pub open spec fn moved(self, motion: Motion, word: bool, select: bool) -> Field {
        if !select && !word && self.has_selection() && motion == Motion::Left {
            Field { caret: self.low(), anchor: self.low(), ..self }
        } else if !select && !word && self.has_selection() && motion == Motion::Right {
            Field { caret: self.high(), anchor: self.high(), ..self }
        } else {
            let to = self.target(motion, word);
            Field {
                caret: to,
                anchor: if select {
                    self.anchor
                } else {
                    to
                },
                ..self
            }
        }
    }

    /// The field after an edit, and whether its text changed.
    pub open spec fn edited(self, edit: Edit) -> (Field, bool) {
        match edit {
            Edit::Char(unit) => self.typed(unit),
            Edit::Text(s) => self.pasted(s@),
            Edit::Backspace { word } => self.backspaced(word),
            Edit::Delete { word } => self.deleted(word),
            Edit::Move { motion, word, select } => (self.moved(motion, word, select), false),
            Edit::SelectAll => (
                Field { anchor: 0, caret: self.text.len() as int, ..self },
                false,
            ),
        }
    }
}

pub open spec fn is_high_surrogate(unit: u16) -> bool {
    0xD800 <= unit <= 0xDBFF
}

pub open spec fn is_low_surrogate(unit: u16) -> bool {
    0xDC00 <= unit <= 0xDFFF
}

/// The code a surrogate pair stands for.
pub open spec fn pair_code(high: u16, low: u16) -> u32 {
    (0x10000 + (high - 0xD800) * 0x400 + (low - 0xDC00)) as u32
}

/// From `i` back over characters that are white (or, not `blank`, that are
/// not).
pub open spec fn back_over(s: Seq<char>, i: int, blank: bool) -> int
    decreases i,
{
    if i > 0 && text::is_white(s[i - 1]) == blank {
        back_over(s, i - 1, blank)
    } else {
        i
    }
}

/// From `i` on over characters that are white (or, not `blank`, that are
/// not).
pub open spec fn on_over(s: Seq<char>, i: int, blank: bool) -> int
    decreases s.len() - i,
{
    if i < s.len() && text::is_white(s[i]) == blank {
        on_over(s, i + 1, blank)
    } else {
        i
    }
}

/// The start of the word before `i`: back over white space, then over a word.
pub open spec fn prev_word(s: Seq<char>, i: int) -> int {
    back_over(s, back_over(s, i, true), false)
}

/// The start of the word after `i`: over the word, then the white space
/// behind it.
pub open spec fn next_word(s: Seq<char>, i: int) -> int {
    on_over(s, on_over(s, i, false), true)
}

proof fn lemma_back_over(s: Seq<char>, i: int, blank: bool)
    requires
        0 <= i <= s.len(),
    ensures
        0 <= back_over(s, i, blank) <= i,
    decreases i,
{
    if i > 0 && text::is_white(s[i - 1]) == blank {
        lemma_back_over(s, i - 1, blank);
    }
}

proof fn lemma_on_over(s: Seq<char>, i: int, blank: bool)
    requires
        0 <= i <= s.len(),
    ensures
        i <= on_over(s, i, blank) <= s.len(),
    decreases s.len() - i,
{
    if i < s.len() && text::is_white(s[i]) == blank {
        lemma_on_over(s, i + 1, blank);
    }
}

proof fn lemma_words(s: Seq<char>, i: int)
    requires
        0 <= i <= s.len(),
    ensures
        0 <= prev_word(s, i) <= i,
        i <= next_word(s, i) <= s.len(),
        i > 0 ==> prev_word(s, i) < i,
        i < s.len() ==> next_word(s, i) > i,
{
    lemma_back_over(s, i, true);
    lemma_back_over(s, back_over(s, i, true), false);
    lemma_on_over(s, i, false);
    lemma_on_over(s, on_over(s, i, false), true);
    reveal_with_fuel(back_over, 2);
    reveal_with_fuel(on_over, 2);
    if i > 0 {
        lemma_back_over(s, i - 1, true);
        lemma_back_over(s, i - 1, false);
    }
    if i < s.len() {
        lemma_on_over(s, i + 1, false);
        lemma_on_over(s, i + 1, true);
    }
}

fn walk_back(chars: &[char], from: usize, blank: bool) -> (r: usize)
    requires
        from <= chars@.len(),
    ensures
        r == back_over(chars@, from as int, blank),
        r <= from,
{
    let mut i: usize = from;
    while i > 0 && white(chars[i - 1]) == blank
        invariant
            i <= from <= chars@.len(),
            back_over(chars@, i as int, blank) == back_over(chars@, from as int, blank),
        decreases i,
    {
        i -= 1;
    }
    i
}

fn walk_on(chars: &[char], from: usize, blank: bool) -> (r: usize)
    requires
        from <= chars@.len(),
    ensures
        r == on_over(chars@, from as int, blank),
        from <= r <= chars@.len(),
{
    let mut i: usize = from;
    while i < chars.len() && white(chars[i]) == blank
        invariant
            from <= i <= chars@.len(),
            on_over(chars@, i as int, blank) == on_over(chars@, from as int, blank),
        decreases chars@.len() - i,
    {
        i += 1;
    }
    i
}

/// An editable line of text.
#[derive(Debug)]
pub struct TextField {
    text: String,
    /// The characters of `text`.
    chars: Vec<char>,
    /// Character the caret stands before.
    caret: usize,
    /// The other end of the selection. Kept apart from the caret so that a
    /// selection can grow and shrink from either side.
    anchor: usize,
    /// A high surrogate waiting for its pair.
    pending_surrogate: Option<u16>,
}

impl View for TextField {
    type V = Field;

    closed spec fn view(&self) -> Field {
        Field {
            text: self.chars@,
            caret: self.caret as int,
            anchor: self.anchor as int,
            pending: self.pending_surrogate,
        }
    }
}

impl Default for TextField {
    /// An empty field.
    fn default() -> (f: TextField)
        ensures
            f@ == (Field { text: Seq::empty(), caret: 0, anchor: 0, pending: None }),
    {
        TextField::of(Vec::new(), 0, 0, None)
    }
}

impl Clone for TextField {
    fn clone(&self) -> (f: TextField)
        ensures
            f@ == self@,
    {
        proof {
            use_type_invariant(self);
        }
        TextField::of(
            slice_of(self.chars.as_slice(), 0, self.chars.len()),
            self.caret,
            self.anchor,
            self.pending_surrogate,
        )
    }
}

impl TextField {
    #[verifier::type_invariant]
    spec fn consistent(self) -> bool {
        self.text@ == self.chars@ && self@.valid()
    }

    fn of(chars: Vec<char>, caret: usize, anchor: usize, pending_surrogate: Option<u16>) -> (f:
        TextField)
        requires
            caret <= chars@.len(),
            anchor <= chars@.len(),
            pending_surrogate matches Some(unit) ==> is_high_surrogate(unit),
        ensures
            f@ == (Field {
                text: chars@,
                caret: caret as int,
                anchor: anchor as int,
                pending: pending_surrogate,
            }),
    {
        TextField { text: string_of(chars.as_slice()), chars, caret, anchor, pending_surrogate }
    }

    /// The same text with the caret, the anchor or the pending unit changed.
    fn at(&self, caret: usize, anchor: usize, pending_surrogate: Option<u16>) -> (f: TextField)
        requires
            caret <= self@.text.len(),
            anchor <= self@.text.len(),
            pending_surrogate matches Some(unit) ==> is_high_surrogate(unit),
        ensures
            f@ == (Field {
                text: self@.text,
                caret: caret as int,
                anchor: anchor as int,
                pending: pending_surrogate,
            }),
    {
        TextField::of(
            slice_of(self.chars.as_slice(), 0, self.chars.len()),
            caret,
            anchor,
            pending_surrogate,
        )
    }

    /// A field holding `text`, caret at the end.
    pub fn new(text: &str) -> (f: TextField)
        ensures
            f@ == (Field {
                text: text@,
                caret: text@.len() as int,
                anchor: text@.len() as int,
                pending: None,
            }),
    {
        let chars = chars_of(text);
        let n: usize = chars.len();
        TextField::of(chars, n, n, None)
    }

    pub fn text(&self) -> (r: &str)
        ensures
            r@ == self@.text,
    {
        proof {
            use_type_invariant(self);
        }
        self.text.as_str()
    }

    pub fn is_empty(&self) -> (r: bool)
        ensures
            r == (self@.text.len() == 0),
    {
        self.chars.len() == 0
    }

    /// Byte offset of the caret.
    pub fn caret(&self) -> (r: usize)
        ensures
            self@.valid(),
            r == offsets::offset(self@.text, self@.caret),
            offsets::on_boundary(self@.text, r as int),
    {
        proof {
            use_type_invariant(self);
            offsets::lemma_offset_is_boundary(self@.text, self@.caret);
        }
        let _n: usize = byte_len(self.text.as_str());
        offset_of(self.chars.as_slice(), self.caret)
    }

    /// The selected byte range, ordered, if anything is selected.
    pub fn selection(&self) -> (r: Option<(usize, usize)>)
        ensures
            self@.valid(),
            match r {
                Some((a, b)) => {
                    &&& self@.has_selection()
                    &&& a == offsets::offset(self@.text, self@.low())
                    &&& b == offsets::offset(self@.text, self@.high())
                    &&& a < b
                },
                None => !self@.has_selection(),
            },
    {
        proof {
            use_type_invariant(self);
        }
        if self.caret == self.anchor {
            return None;
        }
        let _n: usize = byte_len(self.text.as_str());
        let a: usize = if self.caret < self.anchor {
            self.caret
        } else {
            self.anchor
        };
        let b: usize = if self.caret < self.anchor {
            self.anchor
        } else {
            self.caret
        };
        proof {
            offsets::lemma_offset_increases(self.chars@, a as int, b as int);
        }
        Some((offset_of(self.chars.as_slice(), a), offset_of(self.chars.as_slice(), b)))
    }

    /// The selected text, if anything is selected.
    pub fn selected_text(&self) -> (r: Option<&str>)
        ensures
            match r {
                Some(s) => self@.has_selection() && s@ == self@.selected(),
                None => !self@.has_selection(),
            },
    {
        proof {
            use_type_invariant(self);
        }
        match self.selection() {
            Some((a, b)) => {
                proof {
                    assert(offsets::offset(self.text@, self@.low()) == a);
                    assert(offsets::offset(self.text@, self@.high()) == b);
                }
                Some(part(self.text.as_str(), a, b))
            },
            None => None,
        }
    }

    /// Replaces the whole text: caret at the end, nothing selected.
    pub fn set_text(&mut self, text: &str)
        ensures
            final(self)@ == (Field {
                text: text@,
                caret: text@.len() as int,
                anchor: text@.len() as int,
                pending: None,
            }),
    {
        *self = TextField::new(text);
    }

    /// Empties the field.
    pub fn clear(&mut self)
        ensures
            final(self)@ == (Field { text: Seq::empty(), caret: 0, anchor: 0, pending: None }),
    {
        *self = TextField::of(Vec::new(), 0, 0, None);
    }

    /// Applies an edit. Returns whether the text changed.
    pub fn apply(&mut self, edit: Edit) -> (changed: bool)
        ensures
            (final(self)@, changed) == old(self)@.edited(edit),
            final(self)@.valid(),
    {
        proof {
            use_type_invariant(&*self);
        }
        let changed = match edit {
            Edit::Char(unit) => self.insert_utf16(unit),
            Edit::Text(s) => self.insert_str(s),
            Edit::Backspace { word } => self.backspace(word),
            Edit::Delete { word } => self.delete(word),
            Edit::Move { motion, word, select } => {
                self.move_caret(motion, word, select);
                false
            },
            Edit::SelectAll => {
                self.select_all();
                false
            },
        };
        proof {
            use_type_invariant(&*self);
        }
        changed
    }

    /// Removes and returns the selection.
    pub fn cut(&mut self) -> (r: Option<String>)
        ensures
            final(self)@ == old(self)@.unselected(),
            match r {
                Some(s) => old(self)@.has_selection() && s@ == old(self)@.selected(),
                None => !old(self)@.has_selection(),
            },
    {
        let r = match self.selected_text() {
            Some(s) => Some(s.to_owned()),
            None => None,
        };
        self.delete_selection();
        r
    }

    fn insert_utf16(&mut self, unit: u16) -> (changed: bool)
        ensures
            (final(self)@, changed) == old(self)@.typed(unit),
    {
        proof {
            use_type_invariant(&*self);
        }
        if 0xD800 <= unit && unit <= 0xDBFF {
            *self = self.at(self.caret, self.anchor, Some(unit));
            return false;
        }
        if 0xDC00 <= unit && unit <= 0xDFFF {
            let high: u16 = match self.pending_surrogate {
                Some(high) => high,
                None => {
                    return false;
                },
            };
            *self = self.at(self.caret, self.anchor, None);
            let cp: u32 = 0x10000 + ((high as u32) - 0xD800) * 0x400 + ((unit as u32) - 0xDC00);
            return match char::from_u32(cp) {
                Some(c) => self.insert_char(c),
                None => false,
            };
        }
        *self = self.at(self.caret, self.anchor, None);
        match char::from_u32(unit as u32) {
            Some(c) => self.insert_char(c),
            None => false,
        }
    }

    fn insert_char(&mut self, c: char) -> (changed: bool)
        ensures
            final(self)@ == old(self)@.inserted(seq![c]),
            changed == (final(self)@.text != old(self)@.text),
    {
        let mut one: Vec<char> = Vec::new();
        one.push(c);
        assert(one@ == seq![c]);
        self.insert_chars(one.as_slice())
    }

    fn insert_str(&mut self, s: &str) -> (changed: bool)
        ensures
            (final(self)@, changed) == old(self)@.pasted(s@),
    {
        let chars = chars_of(s);
        self.insert_chars(chars.as_slice())
    }

    fn insert_chars(&mut self, s: &[char]) -> (changed: bool)
        ensures
            final(self)@ == old(self)@.inserted(s@),
            changed == (final(self)@.text != old(self)@.text),
    {
        let before = slice_of(self.chars.as_slice(), 0, self.chars.len());
        assert(before@ == old(self)@.text);
        self.delete_selection();
        proof {
            use_type_invariant(&*self);
        }
        let mut chars = slice_of(self.chars.as_slice(), 0, self.caret);
        let mut added = slice_of(s, 0, s.len());
        chars.append(&mut added);
        let at: usize = chars.len();
        let mut rest = slice_of(self.chars.as_slice(), self.caret, self.chars.len());
        chars.append(&mut rest);
        proof {
            let f = old(self)@.unselected();
            assert(s@.subrange(0, s@.len() as int) == s@);
            assert(f.text.subrange(0, f.caret) == f.text.take(f.caret));
            assert(f.text.subrange(f.caret, f.text.len() as int) == f.text.skip(f.caret));
        }
        let changed = !same_chars(before.as_slice(), chars.as_slice());
        *self = TextField::of(chars, at, at, self.pending_surrogate);
        changed
    }

    /// Removes the characters from `a` to `b`, leaving the caret there.
    fn remove(&mut self, a: usize, b: usize)
        requires
            a <= b <= old(self)@.text.len(),
        ensures
            final(self)@ == old(self)@.without(a as int, b as int),
    {
        proof {
            use_type_invariant(&*self);
        }
        let mut chars = slice_of(self.chars.as_slice(), 0, a);
        let mut rest = slice_of(self.chars.as_slice(), b, self.chars.len());
        chars.append(&mut rest);
        proof {
            let t = old(self)@.text;
            assert(t.subrange(0, a as int) == t.take(a as int));
            assert(t.subrange(b as int, t.len() as int) == t.skip(b as int));
        }
        *self = TextField::of(chars, a, a, self.pending_surrogate);
    }

    /// Removes the selection. Returns whether there was one.
    fn delete_selection(&mut self) -> (changed: bool)
        ensures
            final(self)@ == old(self)@.unselected(),
            changed == old(self)@.has_selection(),
    {
        proof {
            use_type_invariant(&*self);
        }
        if self.caret == self.anchor {
            return false;
        }
        if self.caret < self.anchor {
            let (a, b): (usize, usize) = (self.caret, self.anchor);
            self.remove(a, b);
        } else {
            let (a, b): (usize, usize) = (self.anchor, self.caret);
            self.remove(a, b);
        }
        true
    }

    fn backspace(&mut self, word: bool) -> (changed: bool)
        ensures
            (final(self)@, changed) == old(self)@.backspaced(word),
    {
        if self.delete_selection() {
            return true;
        }
        proof {
            use_type_invariant(&*self);
            lemma_words(self@.text, self@.caret);
        }
        let caret: usize = self.caret;
        if caret == 0 {
            return false;
        }
        let from: usize = if word {
            self.prev_word(caret)
        } else {
            caret - 1
        };
        self.remove(from, caret);
        true
    }

    fn delete(&mut self, word: bool) -> (changed: bool)
        ensures
            (final(self)@, changed) == old(self)@.deleted(word),
    {
        if self.delete_selection() {
            return true;
        }
        proof {
            use_type_invariant(&*self);
            lemma_words(self@.text, self@.caret);
        }
        let caret: usize = self.caret;
        if caret == self.chars.len() {
            return false;
        }
        let to: usize = if word {
            self.next_word(caret)
        } else {
            caret + 1
        };
        self.remove(caret, to);
        true
    }

    fn move_caret(&mut self, motion: Motion, word: bool, select: bool)
        ensures
            final(self)@ == old(self)@.moved(motion, word, select),
    {
        proof {
            use_type_invariant(&*self);
            lemma_words(self@.text, self@.caret);
        }
        if !select && !word && self.caret != self.anchor {
            let left_first = self.caret < self.anchor;
            if motion == Motion::Left {
                let to: usize = if left_first {
                    self.caret
                } else {
                    self.anchor
                };
                *self = self.at(to, to, self.pending_surrogate);
                return;
            }
            if motion == Motion::Right {
                let to: usize = if left_first {
                    self.anchor
                } else {
                    self.caret
                };
                *self = self.at(to, to, self.pending_surrogate);
                return;
            }
        }
        let to: usize = match motion {
            Motion::Left => if word {
                self.prev_word(self.caret)
            } else {
                self.prev_char(self.caret)
            },
            Motion::Right => if word {
                self.next_word(self.caret)
            } else {
                self.next_char(self.caret)
            },
            Motion::Home => 0,
            Motion::End => self.chars.len(),
        };
        let anchor: usize = if select {
            self.anchor
        } else {
            to
        };
        *self = self.at(to, anchor, self.pending_surrogate);
    }

    fn select_all(&mut self)
        ensures
            final(self)@ == (Field {
                anchor: 0,
                caret: old(self)@.text.len() as int,
                ..old(self)@
            }),
    {
        proof {
            use_type_invariant(&*self);
        }
        *self = self.at(self.chars.len(), 0, self.pending_surrogate);
    }

    /// Places the caret at byte `pos`, or at the end when `pos` lies past it.
    /// A position inside a character is refused. `select` extends the
    /// selection.
    pub fn set_caret(&mut self, pos: usize, select: bool)
        ensures
            placed_at(old(self)@, final(self)@, pos as int, select),
    {
        proof {
            use_type_invariant(&*self);
            offsets::lemma_offset_ends(self.chars@);
        }
        let n: usize = byte_len(self.text.as_str());
        let pos: usize = if pos < n {
            pos
        } else {
            n
        };
        match index_at(self.chars.as_slice(), pos) {
            Some(i) => {
                let anchor: usize = if select {
                    self.anchor
                } else {
                    i
                };
                *self = self.at(i, anchor, self.pending_surrogate);
            },
            None => {},
        }
    }

    fn prev_char(&self, from: usize) -> (r: usize)
        requires
            from <= self@.text.len(),
        ensures
            r == if from > 0 {
                from - 1
            } else {
                0
            },
    {
        if from > 0 {
            from - 1
        } else {
            0
        }
    }

    fn next_char(&self, from: usize) -> (r: usize)
        requires
            from <= self@.text.len(),
        ensures
            r == if from < self@.text.len() {
                from + 1
            } else {
                from as int
            },
    {
        if from < self.chars.len() {
            from + 1
        } else {
            from
        }
    }

    fn prev_word(&self, from: usize) -> (r: usize)
        requires
            from <= self@.text.len(),
        ensures
            r == prev_word(self@.text, from as int),
            r <= from,
    {
        let k: usize = walk_back(self.chars.as_slice(), from, true);
        walk_back(self.chars.as_slice(), k, false)
    }

    fn next_word(&self, from: usize) -> (r: usize)
        requires
            from <= self@.text.len(),
        ensures
            r == next_word(self@.text, from as int),
            from <= r <= self@.text.len(),
    {
        let k: usize = walk_on(self.chars.as_slice(), from, false);
        walk_on(self.chars.as_slice(), k, true)
    }
}

/// Placing the caret of `before` at byte `pos` gives `after`.
pub open spec fn placed_at(before: Field, after: Field, pos: int, select: bool) -> bool {
    let end = offsets::offset(before.text, before.text.len() as int);
    let pos = if pos < end {
        pos
    } else {
        end as int
    };
    if offsets::on_boundary(before.text, pos) {
        exists|i: int|
            0 <= i <= before.text.len() && #[trigger] offsets::offset(before.text, i) == pos
                && after == (Field {
                caret: i,
                anchor: if select {
                    before.anchor
                } else {
                    i
                },
                ..before
            })
    } else {
        after == before
    }
}

// ---- what editing keeps and undoes --------------------------------------------

proof fn lemma_inserted_is_valid(f: Field, s: Seq<char>)
    requires
        f.valid(),
    ensures
        f.inserted(s).valid(),
{
    assert(f.unselected().valid());
    let g = f.unselected();
    assert((g.text.take(g.caret) + s + g.text.skip(g.caret)).len() == g.text.len() + s.len());
}

/// Every edit of a valid field gives a valid field, and reports a change
/// exactly if the text is another than before.
pub proof fn law_edits_keep_the_field_valid(f: Field, edit: Edit)
    requires
        f.valid(),
    ensures
        f.edited(edit).0.valid(),
        f.edited(edit).1 == (f.edited(edit).0.text != f.text),
{
    match edit {
        Edit::Char(unit) => {
            lemma_inserted_is_valid(f.waiting(None), seq![unit as char]);
            if let Some(high) = f.pending {
                lemma_inserted_is_valid(f.waiting(None), seq![pair_code(high, unit) as char]);
            }
        },
        Edit::Text(s) => {
            lemma_inserted_is_valid(f, s@);
        },
        _ => {
            lemma_words(f.text, f.caret);
        },
    }
}

/// Moving the caret and selecting never touch the text.
pub proof fn law_moving_keeps_the_text(f: Field, motion: Motion, word: bool, select: bool)
    requires
        f.valid(),
    ensures
        f.edited(Edit::Move { motion, word, select }).0.text == f.text,
        !f.edited(Edit::Move { motion, word, select }).1,
        select ==> f.edited(Edit::Move { motion, word, select }).0.anchor == f.anchor,
        !select ==> !f.edited(Edit::Move { motion, word, select }).0.has_selection(),
        f.edited(Edit::SelectAll).0.text == f.text,
        f.edited(Edit::SelectAll).0.selected() == f.text,
{
}

/// Taking the selection out and pasting it back gives the text back.
pub proof fn law_cut_then_paste_restores(f: Field)
    requires
        f.valid(),
        f.has_selection(),
    ensures
        f.unselected().pasted(f.selected()).0.text == f.text,
        f.unselected().pasted(f.selected()).0.caret == f.high(),
{
    let g = f.unselected();
    assert(g.inserted(f.selected()).text == f.text);
}

/// Backspace undoes typing a character where nothing was selected.
pub proof fn law_backspace_undoes_typing(f: Field, unit: u16)
    requires
        f.valid(),
        !f.has_selection(),
        !is_high_surrogate(unit),
        !is_low_surrogate(unit),
    ensures
        f.typed(unit).0.backspaced(false) == (f.waiting(None), true),
{
    let t = f.typed(unit).0;
    assert(t.without(t.caret - 1, t.caret).text == f.text);
}

/// The two halves of a surrogate pair, typed one after the other, put in the
/// one character they stand for; the first half alone changes nothing.
pub proof fn law_surrogate_pairs_type_one_character(f: Field, high: u16, low: u16)
    requires
        f.valid(),
        is_high_surrogate(high),
        is_low_surrogate(low),
    ensures
        !f.typed(high).1,
        f.typed(high).0.text == f.text,
        f.typed(high).0.typed(low).0 == f.waiting(None).inserted(
            seq![pair_code(high, low) as char],
        ),
        !f.has_selection() ==> f.typed(high).0.typed(low).1,
        0x10000 <= pair_code(high, low) <= 0x10FFFF,
{
    assert(f.typed(high).0.waiting(None) == f.waiting(None));
}

/// Whatever was there, selecting everything and pasting leaves the pasted
/// text alone, and deleting leaves nothing.
pub proof fn law_select_all_then_replace(f: Field, s: Seq<char>, word: bool)
    requires
        f.valid(),
    ensures
        f.edited(Edit::SelectAll).0.pasted(s).0.text == s,
        f.text.len() > 0 ==> f.edited(Edit::SelectAll).0.backspaced(word).0.text.len() == 0,
        f.text.len() > 0 ==> f.edited(Edit::SelectAll).0.deleted(word).0.text.len() == 0,
{
    let all = f.edited(Edit::SelectAll).0;
    assert(all.pasted(s).0.text == s);
}

proof fn lemma_back_over_stops(s: Seq<char>, i: int, blank: bool)
    requires
        0 <= i <= s.len(),
    ensures
        ({
            let k = back_over(s, i, blank);
            &&& k > 0 ==> text::is_white(s[k - 1]) != blank
            &&& forall|j: int| k <= j < i ==> text::is_white(#[trigger] s[j]) == blank
        }),
    decreases i,
{
    if i > 0 && text::is_white(s[i - 1]) == blank {
        lemma_back_over_stops(s, i - 1, blank);
    }
}

proof fn lemma_on_over_stops(s: Seq<char>, i: int, blank: bool)
    requires
        0 <= i <= s.len(),
    ensures
        ({
            let k = on_over(s, i, blank);
            &&& k < s.len() ==> text::is_white(s[k]) != blank
            &&& forall|j: int| i <= j < k ==> text::is_white(#[trigger] s[j]) == blank
        }),
    decreases s.len() - i,
{
    if i < s.len() && text::is_white(s[i]) == blank {
        lemma_on_over_stops(s, i + 1, blank);
    }
}

/// A jump by words lands on the first character of a word, or on an edge of
/// the text, and always makes headway.
pub proof fn law_word_jumps_land_on_word_starts(s: Seq<char>, i: int)
    requires
        0 <= i <= s.len(),
    ensures
        ({
            let p = prev_word(s, i);
            &&& 0 <= p <= i
            &&& i > 0 ==> p < i
            &&& p > 0 ==> text::is_white(s[p - 1]) && !text::is_white(s[p])
        }),
        ({
            let n = next_word(s, i);
            &&& i <= n <= s.len()
            &&& i < s.len() ==> n > i
            &&& n < s.len() ==> text::is_white(s[n - 1]) && !text::is_white(s[n])
        }),
{
    lemma_words(s, i);
    let k = back_over(s, i, true);
    lemma_back_over(s, i, true);
    lemma_back_over_stops(s, i, true);
    lemma_back_over(s, k, false);
    lemma_back_over_stops(s, k, false);
    let m = on_over(s, i, false);
    lemma_on_over(s, i, false);
    lemma_on_over_stops(s, i, false);
    lemma_on_over(s, m, true);
    lemma_on_over_stops(s, m, true);
    let p = prev_word(s, i);
    let n = next_word(s, i);
    if p > 0 {
        assert(back_over(s, k, false) != k);
        assert(!text::is_white(s[p]));
    }
    if n < s.len() {
        assert(on_over(s, m, true) != m);
        assert(text::is_white(s[n - 1]));
    }
}

/// Placing the caret where it stands collapses the selection and changes
/// nothing else.
pub proof fn law_placing_the_caret_where_it_is(before: Field, after: Field)
    requires
        before.valid(),
        placed_at(before, after, offsets::offset(before.text, before.caret) as int, false),
    ensures
        after == (Field { anchor: before.caret, ..before }),
{
    let s = before.text;
    offsets::lemma_offset_is_boundary(s, before.caret);
    if before.caret < s.len() {
        offsets::lemma_offset_increases(s, before.caret, s.len() as int);
    }
    let i = choose|i: int|
        0 <= i <= s.len() && #[trigger] offsets::offset(s, i) == offsets::offset(s, before.caret)
            && after == (Field { caret: i, anchor: i, ..before });
    offsets::lemma_offset_names_one(s, i, before.caret);
}

} // verus!
