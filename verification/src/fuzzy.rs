//! Fuzzy matching of a query against a name.
//!
//! A match places every character of the query, in order, on an equal
//! character of the target. Each placement earns points for landing on the
//! start of a word or right after the previous one, and loses points for the
//! gaps it leaves. The score of a target is the best any placement can do.
use vstd::prelude::*;

use crate::text::{self, chars_of, first_lower};

verus! {

pub const BONUS_WORD_START: i32 = 32;

pub const BONUS_CAMEL: i32 = 24;

pub const BONUS_CONSECUTIVE: i32 = 16;

pub const PENALTY_GAP: i32 = 1;

pub const PENALTY_LEAD_CAP: i32 = 8;

pub const PENALTY_LENGTH_CAP: i32 = 8;

/// Stands for "no placement" in the score tables: far below what any
/// placement can come to, whatever the lengths.
const NEG: i128 = -0x1_0000_0000_0000_0000_0000_0000;

/// `p` places the first `p.len()` characters of `q` on equal characters of
/// `t`, from left to right.
pub open spec fn places(q: Seq<char>, t: Seq<char>, p: Seq<int>) -> bool {
    &&& p.len() <= q.len()
    &&& forall|i: int| 0 <= i < p.len() ==> 0 <= #[trigger] p[i] < t.len() && t[p[i]] == q[i]
    &&& forall|i: int, j: int| 0 <= i < j < p.len() ==> #[trigger] p[i] < #[trigger] p[j]
}

/// `p` places the whole of `q` on `t`.
pub open spec fn aligns(q: Seq<char>, t: Seq<char>, p: Seq<int>) -> bool {
    places(q, t, p) && p.len() == q.len()
}

/// Points for placing a character on `j` when the one before it is on `k`.
pub open spec fn step_points(b: Seq<i32>, k: int, j: int) -> int {
    if j == k + 1 {
        if b[j] > BONUS_CONSECUTIVE {
            b[j] as int
        } else {
            BONUS_CONSECUTIVE as int
        }
    } else {
        b[j] - PENALTY_GAP * (j - k - 1)
    }
}

/// Points for placing the first character of the query on `j`.
pub open spec fn lead_points(b: Seq<i32>, j: int) -> int {
    b[j] - if j < PENALTY_LEAD_CAP {
        j
    } else {
        PENALTY_LEAD_CAP as int
    }
}

/// Points a whole placement collects.
pub open spec fn points(b: Seq<i32>, p: Seq<int>) -> int
    decreases p.len(),
{
    if p.len() == 0 {
        0
    } else if p.len() == 1 {
        lead_points(b, p[0])
    } else {
        points(b, p.drop_last()) + step_points(b, p[p.len() - 2], p.last())
    }
}

/// Points lost for the part of the target the query leaves uncovered.
pub open spec fn length_penalty(q: nat, t: nat) -> int {
    let over = (t - q) / 4;
    if over < PENALTY_LENGTH_CAP {
        over
    } else {
        PENALTY_LENGTH_CAP as int
    }
}

/// Whether `q` can be placed on `t` at all.
pub open spec fn matches_somewhere(q: Seq<char>, t: Seq<char>) -> bool {
    q.len() > 0 && exists|p: Seq<int>| aligns(q, t, p)
}

/// `s` is what the best placement of `q` on `t` scores.
pub open spec fn is_best_score(q: Seq<char>, t: Seq<char>, b: Seq<i32>, s: int) -> bool {
    &&& exists|p: Seq<int>| #[trigger]
        aligns(q, t, p) && points(b, p) - length_penalty(q.len(), t.len()) == s
    &&& forall|p: Seq<int>| #[trigger]
        aligns(q, t, p) ==> points(b, p) - length_penalty(q.len(), t.len()) <= s
}

/// `x` as an `i32`, or the nearest there is.
pub open spec fn told(x: int) -> int {
    if x > i32::MAX {
        i32::MAX as int
    } else if x < i32::MIN {
        i32::MIN as int
    } else {
        x
    }
}

/// What scoring `q` against `t` answers.
pub open spec fn is_score(q: Seq<char>, t: Seq<char>, b: Seq<i32>, r: Option<i32>) -> bool {
    match r {
        Some(s) => matches_somewhere(q, t) && exists|x: int| #[trigger]
            is_best_score(q, t, b, x) && s == told(x),
        None => !matches_somewhere(q, t),
    }
}

/// The score of `q` against `t`: there is one answer that is right.
pub open spec fn scored(q: Seq<char>, t: Seq<char>, b: Seq<i32>) -> Option<i32> {
    choose|r: Option<i32>| is_score(q, t, b, r)
}

/// Bonuses as [`bonuses`] gives them: one per character, none out of range.
pub open spec fn bonuses_fit(t: Seq<char>, b: Seq<i32>) -> bool {
    &&& b.len() == t.len()
    &&& forall|j: int| 0 <= j < b.len() ==> 0 <= #[trigger] b[j] <= BONUS_WORD_START
}

// ---- the score tables ----------------------------------------------------

spec fn larger(a: Option<int>, b: Option<int>) -> Option<int> {
    match (a, b) {
        (Some(x), Some(y)) => Some(
            if x >= y {
                x
            } else {
                y
            },
        ),
        (Some(x), None) => Some(x),
        (None, _) => b,
    }
}

spec fn plus(a: Option<int>, n: int) -> Option<int> {
    match a {
        Some(x) => Some(x + n),
        None => None,
    }
}

/// Best points for `q[0..=i]` with `q[i]` placed on `j`.
spec fn best_at(q: Seq<char>, t: Seq<char>, b: Seq<i32>, i: int, j: int) -> Option<int>
    decreases i, 0int, 0int,
{
    if i < 0 || j < 0 || t[j] != q[i] {
        None
    } else if i == 0 {
        Some(lead_points(b, j))
    } else if j == 0 {
        None
    } else {
        let fresh = plus(best_upto(q, t, b, i - 1, j - 1), b[j] as int);
        let run = plus(best_at(q, t, b, i - 1, j - 1), step_points(b, j - 1, j));
        larger(fresh, run)
    }
}

/// Best points for `q[0..=i]` with `q[i]` placed on `j` or earlier, less the
/// gap from there to `j`.
spec fn best_upto(q: Seq<char>, t: Seq<char>, b: Seq<i32>, i: int, j: int) -> Option<int>
    decreases i, 1int, j + 1,
{
    if j < 0 {
        None
    } else {
        larger(best_at(q, t, b, i, j), plus(best_upto(q, t, b, i, j - 1), -(PENALTY_GAP as int)))
    }
}

/// A table value stands for an optional score: equal to it where there is
/// one, and far below every score where there is none.
spec fn stands_for(v: i128, best: Option<int>, i: int, slack: int) -> bool {
    match best {
        Some(x) => v == x,
        None => NEG - slack <= v <= NEG + BONUS_WORD_START * i,
    }
}

proof fn lemma_upto_covers(q: Seq<char>, t: Seq<char>, b: Seq<i32>, i: int, k: int, j: int)
    requires
        0 <= k <= j,
        best_at(q, t, b, i, k) is Some,
    ensures
        best_upto(q, t, b, i, j) is Some,
        best_upto(q, t, b, i, j)->0 >= best_at(q, t, b, i, k)->0 - (j - k),
    decreases j,
{
    if j > k {
        lemma_upto_covers(q, t, b, i, k, j - 1);
    }
}

proof fn lemma_upto_reached(q: Seq<char>, t: Seq<char>, b: Seq<i32>, i: int, j: int) -> (k: int)
    requires
        best_upto(q, t, b, i, j) is Some,
    ensures
        0 <= k <= j,
        best_at(q, t, b, i, k) is Some,
        best_upto(q, t, b, i, j)->0 == best_at(q, t, b, i, k)->0 - (j - k),
    decreases j + 1,
{
    let here = best_at(q, t, b, i, j);
    if here is Some && here->0 == best_upto(q, t, b, i, j)->0 {
        j
    } else {
        lemma_upto_reached(q, t, b, i, j - 1)
    }
}

/// No placement ending on `j` collects more than the table entry.
proof fn lemma_entry_bounds(q: Seq<char>, t: Seq<char>, b: Seq<i32>, p: Seq<int>)
    requires
        places(q, t, p),
        p.len() > 0,
    ensures
        best_at(q, t, b, p.len() - 1, p.last()) is Some,
        points(b, p) <= best_at(q, t, b, p.len() - 1, p.last())->0,
    decreases p.len(),
{
    let i = p.len() - 1;
    let j = p.last();
    assert(t[p[i]] == q[i]);
    if i > 0 {
        let front = p.drop_last();
        let k = p[i - 1];
        assert(front.last() == k);
        assert(p[i - 1] < p[i]);
        lemma_entry_bounds(q, t, b, front);
        lemma_upto_covers(q, t, b, i - 1, k, j - 1);
    }
}

/// The table entry is what some placement ending on `j` collects.
proof fn lemma_entry_reached(q: Seq<char>, t: Seq<char>, b: Seq<i32>, i: int, j: int) -> (p: Seq<
    int,
>)
    requires
        0 <= i < q.len(),
        0 <= j < t.len(),
        best_at(q, t, b, i, j) is Some,
    ensures
        places(q, t, p),
        p.len() == i + 1,
        p.last() == j,
        points(b, p) == best_at(q, t, b, i, j)->0,
    decreases i,
{
    if i == 0 {
        seq![j]
    } else {
        let fresh = plus(best_upto(q, t, b, i - 1, j - 1), b[j] as int);
        let run = plus(best_at(q, t, b, i - 1, j - 1), step_points(b, j - 1, j));
        let k = if run is Some && run->0 == best_at(q, t, b, i, j)->0 {
            j - 1
        } else {
            lemma_upto_reached(q, t, b, i - 1, j - 1)
        };
        let front = lemma_entry_reached(q, t, b, i - 1, k);
        let p = front.push(j);
        assert(p.drop_last() =~= front);
        if k == j - 1 {
            // Reached by the run, or by a gap of nothing that the run beats.
            assert(points(b, p) == points(b, front) + step_points(b, j - 1, j));
        }
        p
    }
}

/// Real scores stay within these bounds.
proof fn lemma_entry_range(q: Seq<char>, t: Seq<char>, b: Seq<i32>, i: int, j: int)
    requires
        0 <= i,
        j < t.len(),
        bonuses_fit(t, b),
    ensures
        best_at(q, t, b, i, j) matches Some(x) ==> -(PENALTY_LEAD_CAP + j) <= x
            <= BONUS_WORD_START * (i + 1),
    decreases i, 0int, 0int,
{
    if i > 0 && j > 0 {
        lemma_entry_range(q, t, b, i - 1, j - 1);
        lemma_upto_range(q, t, b, i - 1, j - 1);
    }
}

proof fn lemma_upto_range(q: Seq<char>, t: Seq<char>, b: Seq<i32>, i: int, j: int)
    requires
        0 <= i,
        j < t.len(),
        bonuses_fit(t, b),
    ensures
        best_upto(q, t, b, i, j) matches Some(x) ==> -(PENALTY_LEAD_CAP + j) <= x
            <= BONUS_WORD_START * (i + 1),
    decreases i, 1int, j + 1,
{
    if j >= 0 {
        lemma_entry_range(q, t, b, i, j);
        lemma_upto_range(q, t, b, i, j - 1);
    }
}

fn larger_of(a: i128, b: i128) -> (r: i128)
    ensures
        r == if a >= b {
            a
        } else {
            b
        },
{
    if a >= b {
        a
    } else {
        b
    }
}

/// `x` as an `i32`, or the nearest there is.
pub fn tell(x: i128) -> (r: i32)
    ensures
        r == told(x as int),
{
    if x > i32::MAX as i128 {
        i32::MAX
    } else if x < i32::MIN as i128 {
        i32::MIN
    } else {
        x as i32
    }
}

/// Scores `query` against `target`, both folded to one case; `bonus` holds
/// the [`bonuses`] of the target as it is written. `None` when the query is
/// empty or is not a subsequence of the target.
pub fn score(query: &[char], target: &[char], bonus: &[i32]) -> (r: Option<i32>)
    requires
        bonuses_fit(target@, bonus@),
    ensures
        is_score(query@, target@, bonus@, r),
        r == scored(query@, target@, bonus@),
{
    let ghost (q, t, b) = (query@, target@, bonus@);
    let r: Option<i32> = match best_score(query, target, bonus) {
        Some(x) => {
            assert(is_best_score(q, t, b, x as int));
            Some(tell(x))
        },
        None => None,
    };
    proof {
        assert(is_score(q, t, b, r));
        law_score_is_determined(q, t, b, r, scored(q, t, b));
    }
    r
}

/// The points of the best placement.
fn best_score(query: &[char], target: &[char], bonus: &[i32]) -> (r: Option<i128>)
    requires
        bonuses_fit(target@, bonus@),
    ensures
        match r {
            Some(x) => matches_somewhere(query@, target@) && is_best_score(
                query@,
                target@,
                bonus@,
                x as int,
            ),
            None => !matches_somewhere(query@, target@),
        },
{
    let qn: usize = query.len();
    let tn: usize = target.len();
    let ghost (q, t, b) = (query@, target@, bonus@);
    if qn == 0 || qn > tn {
        proof {
            if qn > 0 && exists|p: Seq<int>| aligns(q, t, p) {
                let p = choose|p: Seq<int>| aligns(q, t, p);
                lemma_placement_spreads(q, t, p, p.len() - 1);
            }
        }
        return None;
    }
    let mut m_prev: Vec<i128> = vec![NEG; tn];
    let mut g_prev: Vec<i128> = vec![NEG; tn];
    let mut m_cur: Vec<i128> = vec![NEG; tn];
    let mut g_cur: Vec<i128> = vec![NEG; tn];

    let mut j: usize = 0;
    while j < tn
        invariant
            0 < qn <= tn,
            query@ == q,
            target@ == t,
            bonus@ == b,
            qn == q.len(),
            tn == t.len(),
            bonuses_fit(t, b),
            j <= tn,
            m_prev@.len() == tn,
            g_prev@.len() == tn,
            forall|k: int| 0 <= k < j ==> stands_for(#[trigger] m_prev@[k], best_at(q, t, b, 0, k), 0, 0),
            forall|k: int| j <= k < tn ==> #[trigger] m_prev@[k] == NEG,
            forall|k: int|
                0 <= k < j ==> stands_for(#[trigger] g_prev@[k], best_upto(q, t, b, 0, k), 0, k),
        decreases tn - j,
    {
        proof {
            lemma_entry_range(q, t, b, 0, j as int);
            lemma_upto_range(q, t, b, 0, j - 1);
            reveal_with_fuel(best_upto, 2);
        }
        if target[j] == query[0] {
            let lead: i128 = if j < 8 {
                j as i128
            } else {
                PENALTY_LEAD_CAP as i128
            };
            m_prev.set(j, bonus[j] as i128 - lead);
        }
        let g: i128 = if j == 0 {
            m_prev[0]
        } else {
            larger_of(m_prev[j], g_prev[j - 1] - PENALTY_GAP as i128)
        };
        g_prev.set(j, g);
        j += 1;
    }

    let mut i: usize = 1;
    while i < qn
        invariant
            0 < qn <= tn,
            query@ == q,
            target@ == t,
            bonus@ == b,
            qn == q.len(),
            tn == t.len(),
            bonuses_fit(t, b),
            1 <= i <= qn,
            m_prev@.len() == tn,
            g_prev@.len() == tn,
            m_cur@.len() == tn,
            g_cur@.len() == tn,
            forall|k: int|
                0 <= k < tn ==> stands_for(
                    #[trigger] m_prev@[k],
                    best_at(q, t, b, i - 1, k),
                    i - 1,
                    k,
                ),
            forall|k: int|
                0 <= k < tn ==> stands_for(
                    #[trigger] g_prev@[k],
                    best_upto(q, t, b, i - 1, k),
                    i - 1,
                    k,
                ),
        decreases qn - i,
    {
        let mut j: usize = 0;
        while j < tn
            invariant
                0 < qn <= tn,
                query@ == q,
                target@ == t,
                bonus@ == b,
                qn == q.len(),
                tn == t.len(),
                bonuses_fit(t, b),
                1 <= i < qn,
                j <= tn,
                m_prev@.len() == tn,
                g_prev@.len() == tn,
                m_cur@.len() == tn,
                g_cur@.len() == tn,
                forall|k: int|
                    0 <= k < tn ==> stands_for(
                        #[trigger] m_prev@[k],
                        best_at(q, t, b, i - 1, k),
                        i - 1,
                        k,
                    ),
                forall|k: int|
                    0 <= k < tn ==> stands_for(
                        #[trigger] g_prev@[k],
                        best_upto(q, t, b, i - 1, k),
                        i - 1,
                        k,
                    ),
                forall|k: int|
                    0 <= k < j ==> stands_for(
                        #[trigger] m_cur@[k],
                        best_at(q, t, b, i as int, k),
                        i as int,
                        k,
                    ),
                forall|k: int|
                    0 <= k < j ==> stands_for(
                        #[trigger] g_cur@[k],
                        best_upto(q, t, b, i as int, k),
                        i as int,
                        k,
                    ),
            decreases tn - j,
        {
            proof {
                lemma_entry_range(q, t, b, i as int, j as int);
                lemma_upto_range(q, t, b, i as int, j - 1);
                lemma_entry_range(q, t, b, i - 1, j - 1);
                lemma_upto_range(q, t, b, i - 1, j - 1);
                reveal_with_fuel(best_upto, 2);
            }
            m_cur.set(j, NEG);
            if target[j] == query[i] && j > 0 {
                let here: i128 = bonus[j] as i128;
                let fresh: i128 = g_prev[j - 1] + here;
                let run: i128 = m_prev[j - 1] + larger_of(BONUS_CONSECUTIVE as i128, here);
                m_cur.set(j, larger_of(fresh, run));
            }
            let g: i128 = if j == 0 {
                m_cur[0]
            } else {
                larger_of(m_cur[j], g_cur[j - 1] - PENALTY_GAP as i128)
            };
            g_cur.set(j, g);
            j += 1;
        }
        std::mem::swap(&mut m_prev, &mut m_cur);
        std::mem::swap(&mut g_prev, &mut g_cur);
        i += 1;
    }

    let mut best: i128 = m_prev[0];
    let mut at: Ghost<int> = Ghost(0);
    let mut j: usize = 1;
    while j < tn
        invariant
            1 <= j <= tn,
            m_prev@.len() == tn,
            0 <= at@ < j,
            best == m_prev@[at@],
            forall|k: int| 0 <= k < j ==> #[trigger] m_prev@[k] <= best,
        decreases tn - j,
    {
        if m_prev[j] > best {
            best = m_prev[j];
            proof {
                at@ = j as int;
            }
        }
        j += 1;
    }
    proof {
        assert(stands_for(m_prev@[at@], best_at(q, t, b, qn - 1, at@), qn - 1, at@));
        lemma_entry_range(q, t, b, qn - 1, at@);
        assert forall|p: Seq<int>| #[trigger] aligns(q, t, p) implies points(b, p) <= best && best
            > NEG / 2 by {
            lemma_entry_bounds(q, t, b, p);
            let k = p.last();
            assert(t[p[p.len() - 1]] == q[p.len() - 1]);
            assert(stands_for(m_prev@[k], best_at(q, t, b, qn - 1, k), qn - 1, k));
            lemma_entry_range(q, t, b, qn - 1, k);
        }
    }
    if best <= NEG / 2 {
        return None;
    }
    proof {
        let p = lemma_entry_reached(q, t, b, qn - 1, at@);
        assert(aligns(q, t, p) && points(b, p) == best);
    }
    let over: i128 = ((tn - qn) / 4) as i128;
    let penalty: i128 = if over < PENALTY_LENGTH_CAP as i128 {
        over
    } else {
        PENALTY_LENGTH_CAP as i128
    };
    Some(best - penalty)
}

/// A placement needs at least as many target characters as it has positions.
proof fn lemma_placement_spreads(q: Seq<char>, t: Seq<char>, p: Seq<int>, i: int)
    requires
        places(q, t, p),
        0 <= i < p.len(),
    ensures
        i <= p[i] < t.len(),
    decreases i,
{
    if i > 0 {
        lemma_placement_spreads(q, t, p, i - 1);
        assert(p[i - 1] < p[i]);
    }
}

// ---- names -----------------------------------------------------------------

/// A character that ends a word.
pub open spec fn is_separator(c: char) -> bool {
    c == ' ' || c == '-' || c == '_' || c == '.' || c == '/' || c == '\\' || c == '(' || c == '['
}

/// Points for landing on character `i` of a name as it is written: the start
/// of a word, a capital after a small letter, or neither.
pub open spec fn bonus_at(s: Seq<char>, i: int) -> i32 {
    if i == 0 || is_separator(s[i - 1]) {
        BONUS_WORD_START
    } else if text::is_lower(s[i - 1]) && text::is_upper(s[i]) {
        BONUS_CAMEL
    } else {
        0
    }
}

/// The bonuses of a whole name.
pub open spec fn bonuses_of(s: Seq<char>) -> Seq<i32> {
    Seq::new(s.len(), |i: int| bonus_at(s, i))
}

/// A name in small letters, one character for each of its own.
pub open spec fn folded(s: Seq<char>) -> Seq<char> {
    s.map_values(|c: char| text::lower_char(c))
}

/// Points for each character of a name, by its case and what precedes it.
pub fn bonuses(original: &str) -> (out: Vec<i32>)
    ensures
        out@ == bonuses_of(original@),
        bonuses_fit(folded(original@), out@),
{
    let chars = chars_of(original);
    let mut out: Vec<i32> = Vec::with_capacity(chars.len());
    let mut i: usize = 0;
    while i < chars.len()
        invariant
            chars@ == original@,
            i <= chars@.len(),
            out@ == bonuses_of(original@).take(i as int),
        decreases chars@.len() - i,
    {
        let b: i32 = if i == 0 {
            BONUS_WORD_START
        } else {
            let prev = chars[i - 1];
            if prev == ' ' || prev == '-' || prev == '_' || prev == '.' || prev == '/' || prev
                == '\\' || prev == '(' || prev == '[' {
                BONUS_WORD_START
            } else if prev.is_lowercase() && chars[i].is_uppercase() {
                BONUS_CAMEL
            } else {
                0
            }
        };
        out.push(b);
        assert(bonuses_of(original@).take(i + 1) == bonuses_of(original@).take(i as int).push(b));
        i += 1;
    }
    assert(bonuses_of(original@).take(original@.len() as int) == bonuses_of(original@));
    out
}

/// A name in small letters, keeping its character count so that positions
/// agree with the [`bonuses`] of the name as it is written.
pub fn fold_case(original: &str) -> (out: Vec<char>)
    ensures
        out@ == folded(original@),
{
    let chars = chars_of(original);
    let mut out: Vec<char> = Vec::with_capacity(chars.len());
    let mut i: usize = 0;
    while i < chars.len()
        invariant
            chars@ == original@,
            i <= chars@.len(),
            out@ == folded(original@).take(i as int),
        decreases chars@.len() - i,
    {
        let c = first_lower(chars[i]);
        out.push(c);
        assert(folded(original@).take(i + 1) == folded(original@).take(i as int).push(c));
        i += 1;
    }
    assert(folded(original@).take(original@.len() as int) == folded(original@));
    out
}

/// What a typed query scores against a name.
pub open spec fn is_name_score(query: Seq<char>, name: Seq<char>, r: Option<i32>) -> bool {
    is_score(folded(query), folded(name), bonuses_of(name), r)
}

/// What a typed query scores against a name.
pub open spec fn name_score(query: Seq<char>, name: Seq<char>) -> Option<i32> {
    scored(folded(query), folded(name), bonuses_of(name))
}

/// A name prepared for matching.
pub struct Pattern {
    pub folded: Vec<char>,
    pub bonus: Vec<i32>,
}

impl Pattern {
    /// The data of `name`.
    pub open spec fn of(self, name: Seq<char>) -> bool {
        self.folded@ == folded(name) && self.bonus@ == bonuses_of(name)
    }

    pub fn new(name: &str) -> (p: Pattern)
        ensures
            p.of(name@),
            p.fits(),
    {
        Pattern { folded: fold_case(name), bonus: bonuses(name) }
    }

    /// One bonus for each character, none out of range.
    pub open spec fn fits(self) -> bool {
        bonuses_fit(self.folded@, self.bonus@)
    }

    /// Scores a folded query.
    pub fn score(&self, query: &[char]) -> (r: Option<i32>)
        requires
            self.fits(),
        ensures
            r == scored(query@, self.folded@, self.bonus@),
    {
        score(query, self.folded.as_slice(), self.bonus.as_slice())
    }
}

/// Scores a typed query against a name, folding both to one case.
pub fn score_str(query: &str, target: &str) -> (r: Option<i32>)
    ensures
        is_name_score(query@, target@, r),
{
    let q = fold_case(query);
    let t = fold_case(target);
    let b = bonuses(target);
    score(q.as_slice(), t.as_slice(), b.as_slice())
}

// ---- laws --------------------------------------------------------------------

/// There is one answer to a score: two answers that are both right are equal.
pub proof fn law_score_is_determined(
    q: Seq<char>,
    t: Seq<char>,
    b: Seq<i32>,
    r1: Option<i32>,
    r2: Option<i32>,
)
    requires
        is_score(q, t, b, r1),
        is_score(q, t, b, r2),
    ensures
        r1 == r2,
{
}

/// Case does not matter: queries that fold alike score alike.
pub proof fn law_case_does_not_matter(
    q1: Seq<char>,
    q2: Seq<char>,
    name: Seq<char>,
    r1: Option<i32>,
    r2: Option<i32>,
)
    requires
        folded(q1) == folded(q2),
        is_name_score(q1, name, r1),
        is_name_score(q2, name, r2),
    ensures
        r1 == r2,
{
}

/// No score passes the word-start bonus for every character of the query, and
/// none falls below what a late start and the gaps can cost.
pub proof fn law_score_is_bounded(q: Seq<char>, t: Seq<char>, b: Seq<i32>, r: Option<i32>)
    requires
        bonuses_fit(t, b),
        is_score(q, t, b, r),
    ensures
        r matches Some(s) ==> q.len() <= t.len() && -(PENALTY_LEAD_CAP + PENALTY_LENGTH_CAP
            + t.len()) <= s <= BONUS_WORD_START * q.len(),
{
    if let Some(s) = r {
        let x = choose|x: int| #[trigger] is_best_score(q, t, b, x) && s == told(x);
        let p = choose|p: Seq<int>| #[trigger]
            aligns(q, t, p) && points(b, p) - length_penalty(q.len(), t.len()) == x;
        lemma_placement_spreads(q, t, p, p.len() - 1);
        lemma_entry_bounds(q, t, b, p);
        let j = p.last();
        lemma_entry_range(q, t, b, p.len() - 1, j);
        let best = lemma_entry_reached(q, t, b, p.len() - 1, j);
        assert(aligns(q, t, best));
        assert(points(b, best) - length_penalty(q.len(), t.len()) <= x);
    }
}

/// Where the best placement among those that end before `n` ends.
proof fn lemma_best_end(q: Seq<char>, t: Seq<char>, b: Seq<i32>, n: int, j: int) -> (at: int)
    requires
        q.len() > 0,
        0 <= j < n,
        best_at(q, t, b, q.len() - 1, j) is Some,
    ensures
        0 <= at < n,
        best_at(q, t, b, q.len() - 1, at) is Some,
        forall|k: int|
            0 <= k < n && #[trigger] best_at(q, t, b, q.len() - 1, k) is Some ==> best_at(
                q,
                t,
                b,
                q.len() - 1,
                k,
            )->0 <= best_at(q, t, b, q.len() - 1, at)->0,
    decreases n,
{
    let i = q.len() - 1;
    let last = best_at(q, t, b, i, n - 1);
    if exists|k: int| 0 <= k < n - 1 && #[trigger] best_at(q, t, b, i, k) is Some {
        let k = choose|k: int| 0 <= k < n - 1 && #[trigger] best_at(q, t, b, i, k) is Some;
        let at = lemma_best_end(q, t, b, n - 1, k);
        if last is Some && last->0 > best_at(q, t, b, i, at)->0 {
            n - 1
        } else {
            at
        }
    } else {
        n - 1
    }
}

/// Every query has a score, or matches nothing: [`scored`] is right.
pub proof fn law_there_is_a_score(q: Seq<char>, t: Seq<char>, b: Seq<i32>)
    requires
        bonuses_fit(t, b),
    ensures
        is_score(q, t, b, scored(q, t, b)),
{
    if matches_somewhere(q, t) {
        let i = q.len() - 1;
        let p = choose|p: Seq<int>| aligns(q, t, p);
        lemma_placement_spreads(q, t, p, i);
        lemma_entry_bounds(q, t, b, p);
        let at = lemma_best_end(q, t, b, t.len() as int, p.last());
        let best = lemma_entry_reached(q, t, b, i, at);
        lemma_entry_range(q, t, b, i, at);
        assert(aligns(q, t, best));
        let s = points(b, best) - length_penalty(q.len(), t.len());
        assert forall|p: Seq<int>| #[trigger] aligns(q, t, p) implies points(b, p)
            - length_penalty(q.len(), t.len()) <= s by {
            lemma_entry_bounds(q, t, b, p);
            lemma_placement_spreads(q, t, p, i);
            assert(best_at(q, t, b, i, p.last()) is Some);
        }
        assert(is_best_score(q, t, b, s));
        assert(is_score(q, t, b, Some(told(s) as i32)));
    } else {
        assert(is_score(q, t, b, None));
    }
}

/// No name scores more than a word start for every character typed, and none
/// less than what a late start, the gaps and its length can cost.
pub proof fn law_name_scores_are_bounded(query: Seq<char>, name: Seq<char>)
    ensures
        name_score(query, name) matches Some(s) ==> -(PENALTY_LEAD_CAP + PENALTY_LENGTH_CAP
            + name.len()) <= s <= BONUS_WORD_START * query.len(),
{
    let (q, t, b) = (folded(query), folded(name), bonuses_of(name));
    law_there_is_a_score(q, t, b);
    law_score_is_bounded(q, t, b, scored(q, t, b));
}

/// The placement of a text on itself.
spec fn straight(n: nat) -> Seq<int> {
    Seq::new(n, |i: int| i)
}

proof fn lemma_straight_points(b: Seq<i32>, n: nat)
    requires
        1 <= n <= b.len(),
        b[0] == BONUS_WORD_START,
    ensures
        points(b, straight(n)) >= BONUS_WORD_START + BONUS_CONSECUTIVE * (n - 1),
    decreases n,
{
    if n > 1 {
        lemma_straight_points(b, (n - 1) as nat);
        assert(straight(n).drop_last() =~= straight((n - 1) as nat));
    }
}

/// A name matches itself, whatever the case it is typed in, and scores at
/// least a word start and an unbroken run.
pub proof fn law_a_name_matches_itself(query: Seq<char>, name: Seq<char>, r: Option<i32>)
    requires
        name.len() > 0,
        folded(query) == folded(name),
        is_name_score(query, name, r),
    ensures
        r matches Some(s) && s >= told(BONUS_WORD_START + BONUS_CONSECUTIVE * (name.len() - 1)),
{
    let (q, t, b) = (folded(query), folded(name), bonuses_of(name));
    let p = straight(name.len());
    assert(aligns(q, t, p));
    lemma_straight_points(b, name.len());
    assert(length_penalty(q.len(), t.len()) == 0);
}

/// An empty query matches nothing.
pub proof fn law_an_empty_query_matches_nothing(t: Seq<char>, b: Seq<i32>, r: Option<i32>)
    requires
        is_score(Seq::empty(), t, b, r),
    ensures
        r is None,
{
}

} // verus!
