//! What an edit does to a text: what stands before and behind the place where
//! it happens stays.
use vstd::prelude::*;
use vstd::string::*;

use crate::editor::{self, Edit, Field, Motion};
use crate::offsets;
use crate::text;

verus! {

/// A field that holds `a`, then `mid`, which is selected, then `b`. Where
/// nothing is selected, the caret stands between `a` and `b`.
pub open spec fn holds(f: Field, a: Seq<char>, mid: Seq<char>, b: Seq<char>) -> bool {
    &&& f.text == a + mid + b
    &&& (f.caret == a.len() && f.anchor == a.len() + mid.len()) || (f.anchor == a.len() && f.caret
        == a.len() + mid.len())
}

/// A field that holds `a`, then the caret, then `b`, and nothing is selected.
pub open spec fn stands_between(f: Field, a: Seq<char>, b: Seq<char>) -> bool {
    f.text == a + b && f.caret == a.len() && f.anchor == a.len()
}

proof fn lemma_pieces(f: Field, a: Seq<char>, mid: Seq<char>, b: Seq<char>)
    requires
        holds(f, a, mid, b),
    ensures
        f.low() == a.len(),
        f.high() == a.len() + mid.len(),
        f.selected() == mid,
        f.unselected().text == a + b,
        f.unselected().caret == a.len(),
        f.unselected().anchor == a.len(),
        f.has_selection() <==> mid.len() > 0,
{
    assert(f.text.take(a.len() as int) =~= a);
    assert(f.text.skip((a.len() + mid.len()) as int) =~= b);
    assert(f.selected() =~= mid);
    if mid.len() == 0 {
        assert(f.text =~= a + b);
    }
}

/// Typing a character puts it in place of what is selected, and the caret
/// behind it; what stands before and behind stays. Half a character waits for
/// its other half.
pub proof fn law_typing_puts_one_character_in(
    f: Field,
    a: Seq<char>,
    mid: Seq<char>,
    b: Seq<char>,
    unit: u16,
)
    requires
        holds(f, a, mid, b),
        !(0xD800 <= unit <= 0xDFFF),
    ensures
        stands_between(f.typed(unit).0, a.push(unit as char), b),
        f.typed(unit).0.pending is None,
        f.edited(Edit::Char(unit)) == f.typed(unit),
{
    let g = f.waiting(None);
    assert(holds(g, a, mid, b));
    lemma_pieces(g, a, mid, b);
    let u = g.unselected();
    assert(u.text.take(a.len() as int) =~= a);
    assert(u.text.skip(a.len() as int) =~= b);
    assert(g.inserted(seq![unit as char]).text =~= a.push(unit as char) + b);
}

/// Pasting puts the text in place of what is selected, and the caret behind
/// it.
pub proof fn law_pasting_puts_the_text_in(
    f: Field,
    a: Seq<char>,
    mid: Seq<char>,
    b: Seq<char>,
    s: Seq<char>,
)
    requires
        holds(f, a, mid, b),
    ensures
        stands_between(f.pasted(s).0, a + s, b),
        f.pasted(s).0.pending == f.pending,
{
    lemma_pieces(f, a, mid, b);
    let u = f.unselected();
    assert(u.text.take(a.len() as int) =~= a);
    assert(u.text.skip(a.len() as int) =~= b);
    assert(f.inserted(s).text =~= (a + s) + b);
}

/// With a selection, Backspace and Delete take it out and nothing else, by
/// words or not.
pub proof fn law_deleting_a_selection(
    f: Field,
    a: Seq<char>,
    mid: Seq<char>,
    b: Seq<char>,
    word: bool,
)
    requires
        holds(f, a, mid, b),
        mid.len() > 0,
    ensures
        stands_between(f.backspaced(word).0, a, b),
        stands_between(f.deleted(word).0, a, b),
        f.backspaced(word).1 && f.deleted(word).1,
{
    lemma_pieces(f, a, mid, b);
}

/// Without one, Backspace takes the character before the caret and Delete the
/// one behind it; at the edge of the text they do nothing.
pub proof fn law_deleting_one_character(f: Field, a: Seq<char>, b: Seq<char>, word: bool)
    requires
        stands_between(f, a, b),
    ensures
        a.len() > 0 ==> stands_between(f.backspaced(false).0, a.drop_last(), b) && f.backspaced(
            false,
        ).1,
        b.len() > 0 ==> stands_between(f.deleted(false).0, a, b.drop_first()) && f.deleted(false).1,
        a.len() == 0 ==> f.backspaced(word) == (f, false),
        b.len() == 0 ==> f.deleted(word) == (f, false),
{
    let n = a.len() as int;
    if a.len() > 0 {
        assert(f.text.take(n - 1) + f.text.skip(n) =~= a.drop_last() + b);
    }
    if b.len() > 0 {
        assert(f.text.take(n) + f.text.skip(n + 1) =~= a + b.drop_first());
    }
}

/// A word starts at `j`: what comes before is white, and what stands there is
/// not.
pub open spec fn starts_word(s: Seq<char>, j: int) -> bool {
    0 < j < s.len() && text::is_white(s[j - 1]) && !text::is_white(s[j])
}

proof fn lemma_back(s: Seq<char>, i: int, blank: bool)
    requires
        0 <= i <= s.len(),
    ensures
        ({
            let k = editor::back_over(s, i, blank);
            &&& 0 <= k <= i
            &&& forall|j: int| k <= j < i ==> text::is_white(#[trigger] s[j]) == blank
        }),
    decreases i,
{
    if i > 0 && text::is_white(s[i - 1]) == blank {
        lemma_back(s, i - 1, blank);
    }
}

proof fn lemma_on(s: Seq<char>, i: int, blank: bool)
    requires
        0 <= i <= s.len(),
    ensures
        ({
            let k = editor::on_over(s, i, blank);
            &&& i <= k <= s.len()
            &&& forall|j: int| i <= j < k ==> text::is_white(#[trigger] s[j]) == blank
        }),
    decreases s.len() - i,
{
    if i < s.len() && text::is_white(s[i]) == blank {
        lemma_on(s, i + 1, blank);
    }
}

/// A jump by words passes no start of a word: it goes to the nearest one.
pub proof fn law_word_jumps_pass_no_word(s: Seq<char>, i: int, j: int)
    requires
        0 <= i <= s.len(),
    ensures
        editor::prev_word(s, i) < j < i ==> !starts_word(s, j),
        i < j < editor::next_word(s, i) ==> !starts_word(s, j),
{
    let k = editor::back_over(s, i, true);
    lemma_back(s, i, true);
    lemma_back(s, k, false);
    let m = editor::on_over(s, i, false);
    lemma_on(s, i, false);
    lemma_on(s, m, true);
    if editor::prev_word(s, i) < j < i {
        if j < k {
            assert(!text::is_white(s[j - 1]));
        } else {
            assert(text::is_white(s[j]));
        }
    }
    if i < j < editor::next_word(s, i) {
        if j < m {
            assert(!text::is_white(s[j - 1]));
        } else {
            assert(text::is_white(s[j]));
        }
    }
}

/// Deleting by words takes everything up to where a jump by words would go.
pub proof fn law_deleting_by_words(f: Field, a: Seq<char>, b: Seq<char>)
    requires
        stands_between(f, a, b),
    ensures
        a.len() > 0 ==> stands_between(
            f.backspaced(true).0,
            a.take(editor::prev_word(f.text, f.caret)),
            b,
        ),
        b.len() > 0 ==> stands_between(
            f.deleted(true).0,
            a,
            b.skip(editor::next_word(f.text, f.caret) - f.caret),
        ),
{
    editor::law_word_jumps_land_on_word_starts(f.text, f.caret);
    let n = a.len() as int;
    let (p, q) = (editor::prev_word(f.text, n), editor::next_word(f.text, n));
    assert(f.text.take(p) + f.text.skip(n) =~= a.take(p) + b);
    assert(f.text.take(n) + f.text.skip(q) =~= a + b.skip(q - n));
}

/// Left and Right go one character, or one word, within the text; Home goes to
/// its start and End to its end. With nothing to select, an arrow without Shift
/// over a selection goes to the end of it that lies that way.
pub proof fn law_where_the_caret_goes(f: Field, word: bool, select: bool)
    requires
        f.valid(),
    ensures
        f.moved(Motion::Home, word, select).caret == 0,
        f.moved(Motion::End, word, select).caret == f.text.len(),
        select || !f.has_selection() ==> f.moved(Motion::Left, false, select).caret == if f.caret
            > 0 {
            f.caret - 1
        } else {
            0
        },
        select || !f.has_selection() ==> f.moved(Motion::Right, false, select).caret == if f.caret
            < f.text.len() {
            f.caret + 1
        } else {
            f.caret
        },
        f.moved(Motion::Left, true, select).caret == editor::prev_word(f.text, f.caret),
        f.moved(Motion::Right, true, select).caret == editor::next_word(f.text, f.caret),
        !select && f.caret < f.anchor ==> f.moved(Motion::Left, false, false).caret == f.caret
            && f.moved(Motion::Right, false, false).caret == f.anchor,
        !select && f.anchor < f.caret ==> f.moved(Motion::Left, false, false).caret == f.anchor
            && f.moved(Motion::Right, false, false).caret == f.caret,
{
}

/// Two halves of a character are put together as UTF-16 has it: a thousand and
/// twenty-four to the first half, past the first sixty-five thousand.
pub proof fn law_halves_make_one_character(high: u16, low: u16)
    requires
        0xD800 <= high <= 0xDBFF,
        0xDC00 <= low <= 0xDFFF,
    ensures
        editor::is_high_surrogate(high),
        editor::is_low_surrogate(low),
        !editor::is_high_surrogate(low),
        !editor::is_low_surrogate(high),
        editor::pair_code(high, low) == 0x10000 + 1024 * (high - 0xD800) + (low - 0xDC00),
{
}

/// The second half of a character without its first is not typed.
pub proof fn law_a_second_half_alone_is_not_typed(f: Field, unit: u16)
    requires
        0xDC00 <= unit <= 0xDFFF,
        f.pending is None,
    ensures
        f.typed(unit) == (f, false),
{
}

/// Selecting everything selects from the start to the end, with the caret
/// there.
pub proof fn law_selecting_everything(f: Field)
    ensures
        f.edited(Edit::SelectAll).0 == (Field { anchor: 0, caret: f.text.len() as int, ..f }),
        !f.edited(Edit::SelectAll).1,
{
}

/// The caret is placed at the character whose bytes start at the position, or at
/// the end where the position is past it, and a position within a character
/// leaves it. The selection starts where it did, or is given up; the text stays.
pub proof fn law_placing_the_caret(before: Field, after: Field, pos: int, select: bool, i: int)
    requires
        editor::placed_at(before, after, pos, select),
        0 <= pos,
    ensures
        0 <= i <= before.text.len() && offsets::offset(before.text, i) == pos ==> after == (Field {
            caret: i,
            anchor: if select {
                before.anchor
            } else {
                i
            },
            ..before
        }),
        pos >= offsets::offset(before.text, before.text.len() as int) ==> after.caret
            == before.text.len(),
        pos < offsets::offset(before.text, before.text.len() as int) && (forall|k: int|
            0 <= k <= before.text.len() ==> #[trigger] offsets::offset(before.text, k) != pos)
            ==> after == before,
        after.text == before.text,
        after.pending == before.pending,
{
    let s = before.text;
    let n = s.len() as int;
    let end = offsets::offset(s, n) as int;
    let at = if pos < end {
        pos
    } else {
        end
    };
    assert(offsets::on_boundary(s, end));
    if 0 <= i <= n && offsets::offset(s, i) == pos {
        offsets::lemma_offset_increases(s, i, n);
        assert(at == pos);
        assert(offsets::on_boundary(s, at));
    }
    if offsets::on_boundary(s, at) {
        let j = choose|j: int|
            0 <= j <= s.len() && #[trigger] offsets::offset(s, j) == at && after == (Field {
                caret: j,
                anchor: if select {
                    before.anchor
                } else {
                    j
                },
                ..before
            });
        if 0 <= i <= n && offsets::offset(s, i) == pos {
            offsets::lemma_offset_names_one(s, i, j);
        }
        if pos >= end {
            offsets::lemma_offset_names_one(s, n, j);
        }
    }
}

/// An edit is told to have changed the text exactly if the text is another one.
pub proof fn law_changes_are_told(f: Field, edit: Edit)
    requires
        f.valid(),
    ensures
        f.edited(edit).1 <==> f.edited(edit).0.text != f.text,
{
    let (g, changed) = f.edited(edit);
    editor::law_word_jumps_land_on_word_starts(f.text, f.caret);
    if changed && (edit is Backspace || edit is Delete) {
        assert(g.text.len() < f.text.len());
    }
}

} // verus!
