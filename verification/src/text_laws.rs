//! What holds of the small operations on texts.
use vstd::prelude::*;
use vstd::string::*;
use vstd::utf8::*;

use crate::fuzzy;
use crate::numbers;
use crate::order::{self, Key};
use crate::pieces;
use crate::rewrite;
use crate::text;

verus! {

// ---- characters --------------------------------------------------------------------------------

/// Among the ASCII characters the capitals, and they alone, have a small
/// letter of their own, thirty-two further on. What is small already stays.
pub proof fn law_small_letters(c: char)
    ensures
        'A' <= c <= 'Z' ==> text::ascii_lower(c) as u32 == c as u32 + 32,
        !('A' <= c <= 'Z') ==> text::ascii_lower(c) == c,
        text::ascii_lower(text::ascii_lower(c)) == text::ascii_lower(c),
        (c as u32) < 0x80 ==> text::lower_char(c) == text::ascii_lower(c),
{
}

/// Texts that are the same but for the case of their letters are so both ways,
/// and so is what is the same as either; a text is the same as itself. ASCII
/// texts are the same exactly if they are equal in small letters.
pub proof fn law_case_aside(a: Seq<char>, b: Seq<char>, c: Seq<char>)
    ensures
        text::same_ignoring_case(a, a),
        text::same_ignoring_case(a, b) ==> text::same_ignoring_case(b, a),
        text::same_ignoring_case(a, b) && text::same_ignoring_case(b, c)
            ==> text::same_ignoring_case(a, c),
        is_ascii_chars(a) && is_ascii_chars(b) ==> (text::same_ignoring_case(a, b)
            <==> text::lowered(a) == text::lowered(b)),
        text::same_ignoring_case(a, b) ==> a.len() == b.len(),
{
    if is_ascii_chars(a) && is_ascii_chars(b) {
        let (x, y) = (text::lowered(a), text::lowered(b));
        if text::same_ignoring_case(a, b) {
            assert(x =~= y);
        }
        if x == y {
            assert(x.len() == a.len() && y.len() == b.len());
            assert forall|i: int| 0 <= i < a.len() implies text::ascii_lower(#[trigger] a[i])
                == text::ascii_lower(b[i]) by {
                assert(x[i] == y[i]);
            }
        }
    }
}

/// White space is the space, the tab, what breaks a line or a page, and the
/// wide spaces past ASCII; no printable ASCII character is.
pub proof fn law_white_space(c: char)
    ensures
        (c as u32) < 0x80 ==> (text::is_white(c) <==> c == ' ' || c == '\t' || c == '\n' || c
            == '\r' || c as u32 == 0x0B || c as u32 == 0x0C),
        text::is_white(c) ==> c as u32 <= 0x3000,
        c as u32 == 0xA0 || c as u32 == 0x3000 || 0x2000 <= c as u32 <= 0x200A ==> text::is_white(
            c,
        ),
{
}

/// A control character is one below the space, the delete character, or one of
/// the thirty-two behind it.
pub proof fn law_control_characters(c: char)
    ensures
        text::is_control(c) <==> (c as u32) < 32 || 127 <= c as u32 && (c as u32) < 160,
        text::is_control('\n') && text::is_control('\t') && text::is_control('\r'),
{
}

// ---- trimming ----------------------------------------------------------------------------------

/// Nothing but white space.
pub open spec fn all_white(s: Seq<char>) -> bool {
    forall|i: int| 0 <= i < s.len() ==> text::is_white(#[trigger] s[i])
}

/// A text is white space, what trimming leaves of it, and white space; and what
/// is left neither starts nor ends with any.
pub proof fn law_trimming_takes_the_white_space_around(s: Seq<char>) -> (ends: (
    Seq<char>,
    Seq<char>,
))
    ensures
        s == ends.0 + text::trimmed(s) + ends.1,
        all_white(ends.0),
        all_white(ends.1),
        text::trimmed(s).len() > 0 ==> !text::is_white(text::trimmed(s)[0]) && !text::is_white(
            text::trimmed(s).last(),
        ),
    decreases s.len(),
{
    if s.len() > 0 && text::is_white(s.first()) {
        let t = s.drop_first();
        let (a, b) = law_trimming_takes_the_white_space_around(t);
        let front = seq![s[0]] + a;
        assert forall|i: int| 0 <= i < front.len() implies text::is_white(#[trigger] front[i]) by {
            if i > 0 {
                assert(front[i] == a[i - 1]);
            }
        }
        assert(s =~= seq![s[0]] + t);
        assert(s =~= front + text::trimmed(s) + b);
        (front, b)
    } else if s.len() > 0 && text::is_white(s.last()) {
        let t = s.drop_last();
        let (a, b) = law_trimming_takes_the_white_space_around(t);
        let back = b.push(s.last());
        assert forall|i: int| 0 <= i < back.len() implies text::is_white(#[trigger] back[i]) by {
            if i < b.len() {
                assert(back[i] == b[i]);
            }
        }
        assert(s =~= t.push(s.last()));
        assert(s =~= a + text::trimmed(s) + back);
        (a, back)
    } else {
        assert(s =~= Seq::<char>::empty() + s + Seq::<char>::empty());
        (Seq::empty(), Seq::empty())
    }
}

// ---- keys and values ---------------------------------------------------------------------------

/// A key is made character by character: capitals become small, a space a
/// hyphen; small letters, digits, hyphens, underscores and dots stay; anything
/// else is left out.
pub proof fn law_keys_are_made_character_by_character(a: Seq<char>, b: Seq<char>, c: char)
    ensures
        rewrite::as_key(a + b) == rewrite::as_key(a) + rewrite::as_key(b),
        'A' <= c <= 'Z' ==> rewrite::as_key(seq![c]) == seq![((c as u32) + 32) as char],
        'a' <= c <= 'z' || '0' <= c <= '9' || c == '-' || c == '_' || c == '.' ==> rewrite::as_key(
            seq![c],
        ) == seq![c],
        c == ' ' ==> rewrite::as_key(seq![c]) == seq!['-'],
        !('A' <= c <= 'Z') && !('a' <= c <= 'z') && !('0' <= c <= '9') && c != '-' && c != '_' && c
            != '.' && c != ' ' ==> rewrite::as_key(seq![c]).len() == 0,
    decreases b.len(),
{
    reveal_with_fuel(rewrite::as_key, 2);
    assert(seq![c].drop_last() =~= Seq::<char>::empty());
    if b.len() == 0 {
        assert(a + b =~= a);
        assert(rewrite::as_key(a) + rewrite::as_key(b) =~= rewrite::as_key(a));
    } else {
        law_keys_are_made_character_by_character(a, b.drop_last(), c);
        assert((a + b).drop_last() =~= a + b.drop_last());
        assert((a + b).last() == b.last());
        assert(rewrite::as_key(a + b) =~= rewrite::as_key(a) + rewrite::as_key(b));
    }
    if 'A' <= c <= 'Z' {
        assert(rewrite::as_key(seq![c]) =~= seq![((c as u32) + 32) as char]);
    }
    if 'a' <= c <= 'z' || '0' <= c <= '9' || c == '-' || c == '_' || c == '.' {
        assert(rewrite::as_key(seq![c]) =~= seq![c]);
    }
    if c == ' ' {
        assert(rewrite::as_key(seq![c]) =~= seq!['-']);
    }
}

/// A value loses its single quotes and control characters, and nothing else.
pub proof fn law_values_lose_quotes_and_control_characters(s: Seq<char>)
    ensures
        rewrite::without_quotes(s) == s.filter(|c: char| c != '\'' && !text::is_control(c)),
    decreases s.len(),
{
    reveal(Seq::filter);
    if s.len() > 0 {
        law_values_lose_quotes_and_control_characters(s.drop_last());
    }
}

// ---- matching ----------------------------------------------------------------------------------

/// Folding keeps the length and goes character by character, so that a text in
/// capitals and the same in small letters fold to one.
pub proof fn law_folding_goes_character_by_character(a: Seq<char>, b: Seq<char>)
    ensures
        fuzzy::folded(a).len() == a.len(),
        fuzzy::folded(a + b) == fuzzy::folded(a) + fuzzy::folded(b),
        forall|i: int|
            0 <= i < a.len() && (#[trigger] a[i] as u32) < 0x80 ==> fuzzy::folded(a)[i]
                == text::ascii_lower(a[i]),
        text::same_ignoring_case(a, b) && is_ascii_chars(a) && is_ascii_chars(b)
            ==> fuzzy::folded(a) == fuzzy::folded(b),
{
    assert(fuzzy::folded(a + b) =~= fuzzy::folded(a) + fuzzy::folded(b));
    if text::same_ignoring_case(a, b) && is_ascii_chars(a) && is_ascii_chars(b) {
        assert(fuzzy::folded(a) =~= fuzzy::folded(b));
    }
}

// ---- pieces ------------------------------------------------------------------------------------

/// A text stands in another exactly if the other is something, the text, and
/// something.
pub proof fn law_a_text_holds_another(s: Seq<char>, t: Seq<char>, a: Seq<char>, b: Seq<char>)
    ensures
        s == a + t + b ==> pieces::holds(s, t),
        pieces::holds(s, t) ==> exists|x: Seq<char>, y: Seq<char>| s == #[trigger] (x + t + y),
{
    if s == a + t + b {
        let i = a.len() as int;
        assert(s.subrange(i, i + t.len()) =~= t);
        assert(pieces::stands_at(s, t, i));
    }
    if pieces::holds(s, t) {
        let i = choose|i: int| #[trigger] pieces::stands_at(s, t, i);
        let (x, y) = (s.take(i), s.skip(i + t.len()));
        assert(s =~= x + t + y);
    }
}

/// `t` stands nowhere in `s` that starts before `n`.
pub open spec fn starts_past(s: Seq<char>, t: Seq<char>, n: int) -> bool {
    forall|i: int| 0 <= i < n ==> !(#[trigger] pieces::stands_at(s, t, i))
}

/// Replacing a text goes from the left: what comes before its first place
/// stays, the text gives way, and the rest is gone through likewise. A text
/// that stands nowhere is replaced nowhere.
pub proof fn law_replacing_goes_from_the_left(
    a: Seq<char>,
    t: Seq<char>,
    b: Seq<char>,
    by_text: Seq<char>,
)
    requires
        t.len() > 0,
        starts_past(a + t + b, t, a.len() as int),
    ensures
        pieces::replaced(a + t + b, t, by_text) == a + by_text + pieces::replaced(b, t, by_text),
        !pieces::holds(b, t) ==> pieces::replaced(b, t, by_text) == b,
    decreases a.len(),
{
    let s = a + t + b;
    if a.len() == 0 {
        assert(s.subrange(0, t.len() as int) =~= t);
        assert(pieces::stands_at(s, t, 0));
        assert(s.skip(t.len() as int) =~= b);
        assert(a + by_text =~= by_text);
    } else {
        assert(!pieces::stands_at(s, t, 0));
        let a1 = a.drop_first();
        assert(s.drop_first() =~= a1 + t + b);
        assert forall|i: int| 0 <= i < a1.len() implies !(#[trigger] pieces::stands_at(
            a1 + t + b,
            t,
            i,
        )) by {
            assert(!pieces::stands_at(s, t, i + 1));
            if pieces::stands_at(a1 + t + b, t, i) {
                assert(s.subrange(i + 1, i + 1 + t.len()) =~= (a1 + t + b).subrange(
                    i,
                    i + t.len(),
                ));
            }
        }
        law_replacing_goes_from_the_left(a1, t, b, by_text);
        let rest = pieces::replaced(b, t, by_text);
        assert(seq![s[0]] + (a1 + by_text + rest) =~= a + by_text + rest);
    }
    if !pieces::holds(b, t) {
        lemma_nothing_replaced(b, t, by_text);
    }
}

proof fn lemma_nothing_replaced(s: Seq<char>, t: Seq<char>, by_text: Seq<char>)
    requires
        !pieces::holds(s, t),
    ensures
        pieces::replaced(s, t, by_text) == s,
    decreases s.len(),
{
    if s.len() > 0 && t.len() > 0 {
        assert(!pieces::stands_at(s, t, 0));
        let r = s.drop_first();
        if pieces::holds(r, t) {
            let i = choose|i: int| #[trigger] pieces::stands_at(r, t, i);
            assert(s.subrange(i + 1, i + 1 + t.len()) =~= r.subrange(i, i + t.len()));
            assert(pieces::stands_at(s, t, i + 1));
        }
        lemma_nothing_replaced(r, t, by_text);
        assert(seq![s[0]] + r =~= s);
    }
}

// ---- numbers -----------------------------------------------------------------------------------

/// A number is read digit by digit, ten to the place; a plus sign before it
/// changes nothing; and no text but digits is one.
pub proof fn law_numbers_are_read_digit_by_digit(s: Seq<char>, d: char)
    ensures
        numbers::decimal(seq![d]) is Some <==> '0' <= d <= '9',
        '0' <= d <= '9' ==> numbers::decimal(seq![d]) == Some((d as u32 - 0x30) as nat),
        numbers::decimal(s) matches Some(n) ==> ('0' <= d <= '9' ==> numbers::decimal(s.push(d))
            == Some((n * 10 + (d as u32 - 0x30)) as nat)),
        !('0' <= d <= '9') ==> numbers::decimal(s.push(d)) is None,
        s.len() > 0 && s[0] != '+' ==> numbers::decimal(seq!['+'] + s) == numbers::decimal(s),
        numbers::decimal(Seq::empty()) is None,
{
    reveal_with_fuel(numbers::value_of, 2);
    assert(seq![d].drop_last() =~= Seq::<char>::empty());
    assert(seq![d][0] == d);
    if '0' <= d <= '9' {
        assert(numbers::all_digits(seq![d]));
    } else if d != '+' {
        assert(!text::is_digit(seq![d][0]));
    }
    let t = s.push(d);
    assert((seq!['+'] + s).skip(1) =~= s);
    if s.len() > 0 && s[0] == '+' {
        let (u, v) = (s.skip(1), t.skip(1));
        assert(v =~= u.push(d));
        assert(v.drop_last() =~= u);
        lemma_digits(u, d);
    } else if s.len() > 0 {
        assert(t.drop_last() =~= s);
        lemma_digits(s, d);
    } else {
        assert(t =~= seq![d]);
    }
}

proof fn lemma_digits(s: Seq<char>, d: char)
    ensures
        numbers::all_digits(s.push(d)) <==> numbers::all_digits(s) && '0' <= d <= '9',
{
    let t = s.push(d);
    if numbers::all_digits(t) {
        assert(text::is_digit(t[s.len() as int]));
        assert forall|i: int| 0 <= i < s.len() implies text::is_digit(#[trigger] s[i]) by {
            assert(t[i] == s[i]);
        }
    }
}

// ---- order -------------------------------------------------------------------------------------

/// In the dictionary the first character that differs decides, by its code;
/// and a text comes before any that goes on from it.
pub proof fn law_the_first_difference_decides(
    a: Seq<char>,
    c: char,
    x: Seq<char>,
    d: char,
    y: Seq<char>,
)
    ensures
        c != d ==> (order::precedes(a.push(c) + x, a.push(d) + y) <==> (c as u32) < (d as u32)),
        order::precedes(a, a.push(c) + x),
        !order::precedes(a.push(c) + x, a),
    decreases a.len(),
{
    let (l, r) = (a.push(c) + x, a.push(d) + y);
    if a.len() == 0 {
        assert(l[0] == c && r[0] == d);
    } else {
        let t = a.drop_first();
        law_the_first_difference_decides(t, c, x, d, y);
        assert(l[0] == a[0] && r[0] == a[0]);
        assert(l.drop_first() =~= t.push(c) + x);
        assert(r.drop_first() =~= t.push(d) + y);
    }
}

/// Smaller numbers come first, and equal ones by their texts.
pub proof fn law_numbers_come_before_texts(a: Key, b: Key)
    ensures
        a.number < b.number ==> order::before(a, b) && !order::before(b, a),
        a.number == b.number ==> (order::before(a, b) <==> order::precedes(a.text, b.text)),
{
}

// ---- lines -------------------------------------------------------------------------------------

proof fn lemma_split_front(a: Seq<char>, b: Seq<char>, c: char)
    requires
        !a.contains(c),
    ensures
        pieces::split_on(a.push(c) + b, c) == seq![a] + pieces::split_on(b, c),
        pieces::split_on(a, c) == seq![a],
        pieces::split_on(b, c).len() >= 1,
    decreases a.len() + b.len(),
{
    pieces::law_split_then_join(b, c);
    let s = a.push(c) + b;
    if b.len() == 0 {
        assert(s =~= a.push(c));
        assert(s.drop_last() =~= a);
        if a.len() > 0 {
            let t = a.drop_last();
            assert(!t.contains(c)) by {
                if t.contains(c) {
                    let i = choose|i: int| 0 <= i < t.len() && t[i] == c;
                    assert(a[i] == c);
                }
            }
            lemma_split_front(t, Seq::empty(), c);
            assert(a.last() != c) by {
                assert(a[a.len() - 1] != c);
            }
            let p = pieces::split_on(t, c);
            assert(p == seq![t]);
            assert(p.last() == t);
            assert(t.push(a.last()) =~= a);
            assert(p.drop_last().push(t.push(a.last())) =~= seq![a]);
        } else {
            assert(a =~= Seq::<char>::empty());
        }
        assert(b =~= Seq::<char>::empty());
        assert(s.last() == c);
        assert(pieces::split_on(a, c) =~= seq![a]);
        assert(pieces::split_on(b, c) =~= seq![b]);
        assert(pieces::split_on(s, c) == pieces::split_on(a, c).push(b));
        assert(pieces::split_on(s, c) =~= seq![a] + pieces::split_on(b, c));
    } else {
        let t = b.drop_last();
        lemma_split_front(a, t, c);
        pieces::law_split_then_join(t, c);
        assert(s.drop_last() =~= a.push(c) + t);
        assert(s.last() == b.last());
        let p = pieces::split_on(t, c);
        let q = seq![a] + p;
        assert(q.last() == p.last());
        assert(q.drop_last() =~= seq![a] + p.drop_last());
        assert(pieces::split_on(s, c) =~= seq![a] + pieces::split_on(b, c));
    }
}

/// A text is read line by line: a line ends in a newline, or in a carriage
/// return and a newline, which do not belong to it; and what stands behind the
/// last newline is a line where there is anything.
pub proof fn law_texts_are_read_line_by_line(a: Seq<char>, b: Seq<char>)
    requires
        !a.contains('\n'),
    ensures
        a.len() == 0 || a.last() != '\r' ==> pieces::lines_of(a.push('\n') + b) == seq![a]
            + pieces::lines_of(b),
        pieces::lines_of(a.push('\r').push('\n') + b) == seq![a] + pieces::lines_of(b),
        a.len() > 0 ==> pieces::lines_of(a) == seq![a],
        pieces::lines_of(Seq::empty()).len() == 0,
{
    lemma_line_front(a, b);
    let r = a.push('\r');
    assert(!r.contains('\n')) by {
        if r.contains('\n') {
            let i = choose|i: int| 0 <= i < r.len() && r[i] == '\n';
            assert(a[i] == '\n');
        }
    }
    lemma_line_front(r, b);
    assert(r.drop_last() =~= a);
    lemma_split_front(a, Seq::empty(), '\n');
    let none = Seq::<char>::empty();
    lemma_split_front(none, none, '\n');
    let p = pieces::split_on(a, '\n');
    let f = |l: Seq<char>| pieces::without_cr(l);
    assert(p.drop_last().map_values(f) =~= Seq::<Seq<char>>::empty());
    if a.len() > 0 {
        assert(pieces::lines_of(a) =~= seq![a]);
    }
    assert(seq![none].drop_last().map_values(f) =~= Seq::<Seq<char>>::empty());
}

proof fn lemma_line_front(a: Seq<char>, b: Seq<char>)
    requires
        !a.contains('\n'),
    ensures
        pieces::lines_of(a.push('\n') + b) == seq![pieces::without_cr(a)] + pieces::lines_of(b),
{
    lemma_split_front(a, b, '\n');
    let s = a.push('\n') + b;
    let (p, q) = (pieces::split_on(s, '\n'), pieces::split_on(b, '\n'));
    let f = |l: Seq<char>| pieces::without_cr(l);
    assert(p == seq![a] + q);
    assert(p.last() == q.last());
    assert(p.drop_last().map_values(f) =~= seq![pieces::without_cr(a)] + q.drop_last().map_values(
        f,
    ));
    assert(pieces::lines_of(s) =~= seq![pieces::without_cr(a)] + pieces::lines_of(b));
}

/// Among the ASCII characters `a` to `z` are small and `A` to `Z` are capitals.
pub proof fn law_small_and_capital_letters(c: char)
    requires
        (c as u32) < 0x80,
    ensures
        text::is_lower(c) <==> 'a' <= c <= 'z',
        text::is_upper(c) <==> 'A' <= c <= 'Z',
        text::is_digit(c) <==> '0' <= c <= '9',
{
}

} // verus!
