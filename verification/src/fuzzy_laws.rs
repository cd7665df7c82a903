//! What holds of matching: where a query can be placed, and what a placement
//! is worth.
use vstd::prelude::*;

use crate::fuzzy;
use crate::text;

verus! {

// ---- where a query can be placed ---------------------------------------------------------------

proof fn lemma_places_more(q: Seq<char>, t: Seq<char>, p: Seq<int>, d: char)
    requires
        fuzzy::aligns(q, t, p),
    ensures
        fuzzy::aligns(q, t.push(d), p),
{
    assert forall|i: int| 0 <= i < p.len() implies 0 <= #[trigger] p[i] < t.push(d).len()
        && t.push(d)[p[i]] == q[i] by {
        assert(t[p[i]] == q[i]);
    }
}

/// A query can be placed on a text exactly if its characters stand there in
/// order: with one character more on either side, either the two are the same
/// and the rest of the query can be placed on what comes before, or the whole
/// query can. Nothing can be placed on an empty text, and an empty query
/// nowhere.
pub proof fn law_a_query_is_placed_in_order(q: Seq<char>, c: char, t: Seq<char>, d: char)
    ensures
        fuzzy::matches_somewhere(q.push(c), t.push(d)) <==> (c == d && (q.len() == 0
            || fuzzy::matches_somewhere(q, t))) || fuzzy::matches_somewhere(q.push(c), t),
        !fuzzy::matches_somewhere(q.push(c), Seq::empty()),
        !fuzzy::matches_somewhere(Seq::empty(), t),
{
    let (qc, td) = (q.push(c), t.push(d));
    let n = t.len() as int;
    if fuzzy::matches_somewhere(qc, td) {
        let p = choose|p: Seq<int>| fuzzy::aligns(qc, td, p);
        let last = p[p.len() - 1];
        assert(td[last] == qc[p.len() - 1]);
        if last == n {
            let front = p.drop_last();
            assert(c == d);
            if q.len() > 0 {
                assert forall|i: int| 0 <= i < front.len() implies 0 <= #[trigger] front[i]
                    < t.len() && t[front[i]] == q[i] by {
                    assert(p[i] < p[p.len() - 1]);
                    assert(td[p[i]] == qc[i]);
                }
                assert forall|i: int, j: int| 0 <= i < j < front.len() implies #[trigger] front[i]
                    < #[trigger] front[j] by {
                    assert(p[i] < p[j]);
                }
                assert(fuzzy::aligns(q, t, front));
            }
        } else {
            assert forall|i: int| 0 <= i < p.len() implies 0 <= #[trigger] p[i] < t.len()
                && t[p[i]] == qc[i] by {
                assert(td[p[i]] == qc[i]);
                if i < p.len() - 1 {
                    assert(p[i] < p[p.len() - 1]);
                }
            }
            assert(fuzzy::aligns(qc, t, p));
        }
    }
    if c == d && (q.len() == 0 || fuzzy::matches_somewhere(q, t)) {
        let front = if q.len() == 0 {
            Seq::<int>::empty()
        } else {
            choose|p: Seq<int>| fuzzy::aligns(q, t, p)
        };
        let p = front.push(n);
        assert forall|i: int| 0 <= i < p.len() implies 0 <= #[trigger] p[i] < td.len() && td[p[i]]
            == qc[i] by {
            if i < front.len() {
                assert(t[front[i]] == q[i]);
            }
        }
        assert forall|i: int, j: int| 0 <= i < j < p.len() implies #[trigger] p[i]
            < #[trigger] p[j] by {
            if j < front.len() {
                assert(front[i] < front[j]);
            } else {
                assert(0 <= front[i] < t.len());
            }
        }
        assert(fuzzy::aligns(qc, td, p));
    }
    if fuzzy::matches_somewhere(qc, t) {
        let p = choose|p: Seq<int>| fuzzy::aligns(qc, t, p);
        lemma_places_more(qc, t, p, d);
    }
    let none = Seq::<char>::empty();
    if fuzzy::matches_somewhere(qc, none) {
        let p = choose|p: Seq<int>| fuzzy::aligns(qc, none, p);
        assert(fuzzy::aligns(qc, none, p));
        assert(0 <= p[0] < none.len());
    }
}

// ---- what a placement is worth -----------------------------------------------------------------

/// The start of a name, and what follows a space, a hyphen, an underscore, a
/// dot, a slash either way, or an opening bracket, earns thirty-two points; a
/// capital after a small letter twenty-four; anything else nothing.
pub proof fn law_where_words_start(s: Seq<char>, i: int)
    requires
        0 <= i < s.len(),
    ensures
        ({
            let b = fuzzy::bonuses_of(s)[i];
            let edge = i == 0 || s[i - 1] == ' ' || s[i - 1] == '-' || s[i - 1] == '_' || s[i - 1]
                == '.' || s[i - 1] == '/' || s[i - 1] == '\\' || s[i - 1] == '(' || s[i - 1] == '[';
            let hump = i > 0 && text::is_lower(s[i - 1]) && text::is_upper(s[i]);
            &&& edge ==> b == 32
            &&& !edge && hump ==> b == 24
            &&& !edge && !hump ==> b == 0
        }),
        fuzzy::bonuses_of(s).len() == s.len(),
{
}

/// The first character of a query earns its bonus, less one point for every
/// character before it, eight at most.
pub proof fn law_what_the_first_character_earns(b: Seq<i32>, j: int)
    requires
        0 <= j < b.len(),
    ensures
        j <= 8 ==> fuzzy::points(b, seq![j]) == b[j] - j,
        j > 8 ==> fuzzy::points(b, seq![j]) == b[j] - 8,
        fuzzy::points(b, Seq::empty()) == 0,
{
}

/// A further character earns sixteen points right behind the one before, or its
/// bonus where that is more; further on it earns its bonus, less one point for
/// every character it leaves out.
pub proof fn law_what_a_further_character_earns(b: Seq<i32>, p: Seq<int>, j: int)
    requires
        p.len() > 0,
        0 <= p.last() < j < b.len(),
    ensures
        ({
            let more = fuzzy::points(b, p.push(j)) - fuzzy::points(b, p);
            let gap = j - p.last() - 1;
            &&& gap == 0 && b[j] <= 16 ==> more == 16
            &&& gap == 0 && b[j] > 16 ==> more == b[j]
            &&& gap > 0 ==> more == b[j] - gap
        }),
{
    let r = p.push(j);
    assert(r.drop_last() =~= p);
    assert(r[r.len() - 2] == p.last());
    assert(r.last() == j);
}

/// A target loses a point for every four characters it is longer than the
/// query, eight at most.
pub proof fn law_what_a_long_target_loses(q: nat, t: nat)
    requires
        q <= t,
    ensures
        t - q >= 32 ==> fuzzy::length_penalty(q, t) == 8,
        t - q < 32 ==> 4 * fuzzy::length_penalty(q, t) <= t - q < 4 * fuzzy::length_penalty(q, t)
            + 4,
{
}

/// A score is what the best placement is worth: some placement is worth it,
/// and none is worth more. There is one exactly if the query can be placed.
pub proof fn law_a_score_is_the_best_placement(q: Seq<char>, t: Seq<char>, b: Seq<i32>)
    requires
        fuzzy::bonuses_fit(t, b),
    ensures
        fuzzy::scored(q, t, b) is Some <==> q.len() > 0 && exists|p: Seq<int>|
            fuzzy::aligns(q, t, p),
        fuzzy::scored(q, t, b) matches Some(s) ==> (forall|p: Seq<int>| #[trigger]
            fuzzy::aligns(q, t, p) ==> fuzzy::told(
                fuzzy::points(b, p) - fuzzy::length_penalty(q.len(), t.len()),
            ) <= s) && (exists|p: Seq<int>| #[trigger]
            fuzzy::aligns(q, t, p) && s == fuzzy::told(
                fuzzy::points(b, p) - fuzzy::length_penalty(q.len(), t.len()),
            )),
{
    fuzzy::law_there_is_a_score(q, t, b);
    if let Some(s) = fuzzy::scored(q, t, b) {
        let x = choose|x: int| #[trigger]
            fuzzy::is_best_score(q, t, b, x) && s == fuzzy::told(x);
        assert(fuzzy::is_best_score(q, t, b, x));
    }
}

/// A score that fits is told as it is; one that does not, as the nearest that
/// does.
pub proof fn law_scores_are_told(x: int)
    ensures
        -0x8000_0000 <= x < 0x8000_0000 ==> fuzzy::told(x) == x,
        x >= 0x8000_0000 ==> fuzzy::told(x) == 0x7FFF_FFFF,
        x < -0x8000_0000 ==> fuzzy::told(x) == -0x8000_0000,
{
}

/// A typed query and a name are matched in small letters, with the bonuses of
/// the name as it is written.
pub proof fn law_names_are_matched_in_small_letters(q: Seq<char>, name: Seq<char>)
    ensures
        fuzzy::name_score(q, name) == fuzzy::scored(
            q.map_values(|c: char| text::lower_char(c)),
            name.map_values(|c: char| text::lower_char(c)),
            fuzzy::bonuses_of(name),
        ),
{
}

} // verus!
