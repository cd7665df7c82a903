//! What holds of the launch history: what its file says, how its weights
//! compare, and what is kept of it.
use vstd::prelude::*;
use vstd::string::*;

use crate::app::Rank;
use crate::frecency::{self, Launch, Note, Weighed};
use crate::numbers;
use crate::order;
use crate::pieces;
use crate::plugins::search_laws;

verus! {

// ---- the file ----------------------------------------------------------------------------------

/// A line of the file with these four parts.
pub open spec fn tabbed(
    plugin: Seq<char>,
    weight: Seq<char>,
    last: Seq<char>,
    payload: Seq<char>,
) -> Seq<char> {
    plugin.push('\t') + (weight.push('\t') + (last.push('\t') + payload))
}

/// A number of the file: digits that fit.
pub open spec fn stands_for(s: Seq<char>, n: u64) -> bool {
    numbers::decimal(s) == Some(n as nat)
}

proof fn lemma_at_tab(s: Seq<char>)
    ensures
        match frecency::at_tab(s) {
            Some((a, b)) => s == a.push('\t') + b && !a.contains('\t'),
            None => !s.contains('\t'),
        },
{
    pieces::lemma_first_of(s, '\t');
    let k = pieces::first_of(s, '\t');
    if k < s.len() {
        let a = s.take(k);
        assert(s =~= a.push('\t') + s.skip(k + 1));
        if a.contains('\t') {
            let i = choose|i: int| 0 <= i < a.len() && a[i] == '\t';
            assert(s[i] == '\t');
        }
    } else if s.contains('\t') {
        let i = choose|i: int| 0 <= i < s.len() && s[i] == '\t';
        assert(s[i] == '\t');
    }
}

proof fn lemma_tabbed(a: Seq<char>, b: Seq<char>)
    requires
        !a.contains('\t'),
    ensures
        frecency::at_tab(a.push('\t') + b) == Some((a, b)),
{
    let s = a.push('\t') + b;
    assert forall|i: int| 0 <= i < a.len() implies #[trigger] s[i] != '\t' by {
        assert(s[i] == a[i]);
        assert(a.contains(a[i]));
    }
    assert(s[a.len() as int] == '\t');
    pieces::lemma_first_of_is(s, '\t', a.len() as int);
    assert(s.take(a.len() as int) =~= a);
    assert(s.skip(a.len() as int + 1) =~= b);
}

/// A line with a plugin, a weight, a time and a payload between tabs is an
/// entry that says just that: the plugin and the payload are not empty, the
/// two numbers fit, the weight is not nothing, and the line is no comment. A
/// tab in the payload belongs to it.
pub proof fn law_lines_with_four_parts_are_entries(
    plugin: Seq<char>,
    weight: Seq<char>,
    last: Seq<char>,
    payload: Seq<char>,
    x: Note,
)
    requires
        !plugin.contains('\t'),
        !weight.contains('\t'),
        !last.contains('\t'),
    ensures
        frecency::note_in(tabbed(plugin, weight, last, payload)) == Some(x) <==> {
            &&& x.plugin == plugin
            &&& x.payload == payload
            &&& stands_for(weight, x.milli)
            &&& stands_for(last, x.last)
            &&& x.milli > 0
            &&& plugin.len() > 0
            &&& payload.len() > 0
            &&& plugin[0] != '#'
        },
{
    let line = tabbed(plugin, weight, last, payload);
    let rest = weight.push('\t') + (last.push('\t') + payload);
    lemma_tabbed(plugin, rest);
    lemma_tabbed(weight, last.push('\t') + payload);
    lemma_tabbed(last, payload);
    if plugin.len() > 0 {
        assert(line[0] == plugin[0]);
    }
}

/// What is no line with four parts, or is a comment, is no entry.
pub proof fn law_other_lines_are_no_entries(line: Seq<char>)
    ensures
        frecency::note_in(line) is Some ==> line.len() > 0 && line[0] != '#' && exists|
            plugin: Seq<char>,
            weight: Seq<char>,
            last: Seq<char>,
            payload: Seq<char>,
        |
            #![trigger tabbed(plugin, weight, last, payload)]
            line == tabbed(plugin, weight, last, payload) && !plugin.contains('\t')
                && !weight.contains('\t') && !last.contains('\t'),
{
    if frecency::note_in(line) is Some {
        lemma_at_tab(line);
        let (plugin, a) = frecency::at_tab(line)->0;
        lemma_at_tab(a);
        let (weight, b) = frecency::at_tab(a)->0;
        lemma_at_tab(b);
        let (last, payload) = frecency::at_tab(b)->0;
        assert(line == tabbed(plugin, weight, last, payload));
    }
}

/// The two entries are of one thing.
pub open spec fn same_thing(x: Note, y: Note) -> bool {
    x.plugin == y.plugin && x.payload == y.payload
}

proof fn lemma_noted(v: Seq<Note>, x: Note, y: Note)
    requires
        frecency::distinct(v),
    ensures
        frecency::distinct(frecency::noted(v, x)),
        frecency::noted(v, x).contains(y) <==> y == x || !same_thing(x, y) && v.contains(y),
{
    let k = frecency::note_at(v, x.plugin, x.payload);
    pieces::lemma_first_where(v, |n: Note| n.plugin == x.plugin && n.payload == x.payload);
    let r = frecency::noted(v, x);
    if k < v.len() {
        assert(r[k] == x);
        if v.contains(y) && !same_thing(x, y) {
            let i = choose|i: int| 0 <= i < v.len() && v[i] == y;
            assert(r[i] == y);
        }
        if r.contains(y) && y != x {
            let i = choose|i: int| 0 <= i < r.len() && r[i] == y;
            assert(v[i] == y);
            if same_thing(x, y) {
                if i < k {
                    assert(!same_thing(v[i], x));
                } else {
                    assert(!(v[k].plugin == v[i].plugin && v[k].payload == v[i].payload));
                }
            }
        }
        assert forall|i: int, j: int| 0 <= i < j < r.len() implies !((#[trigger] r[i]).plugin == (
        #[trigger] r[j]).plugin && r[i].payload == r[j].payload) by {
            assert(same_thing(r[i], v[i]) && same_thing(r[j], v[j]));
            assert(!(v[i].plugin == v[j].plugin && v[i].payload == v[j].payload));
        }
    } else {
        assert(r[v.len() as int] == x);
        if v.contains(y) {
            let i = choose|i: int| 0 <= i < v.len() && v[i] == y;
            assert(r[i] == y);
        }
        if r.contains(y) && y != x {
            let i = choose|i: int| 0 <= i < r.len() && r[i] == y;
            assert(v[i] == y);
            assert(!same_thing(v[i], x));
        }
        assert forall|i: int, j: int| 0 <= i < j < r.len() implies !((#[trigger] r[i]).plugin == (
        #[trigger] r[j]).plugin && r[i].payload == r[j].payload) by {
            if j < v.len() {
                assert(r[i] == v[i] && r[j] == v[j]);
            } else {
                assert(r[i] == v[i]);
            }
        }
    }
}

proof fn lemma_notes_distinct(lines: Seq<Seq<char>>)
    ensures
        frecency::distinct(frecency::notes_in(lines)),
    decreases lines.len(),
{
    if lines.len() > 0 {
        let t = lines.drop_last();
        lemma_notes_distinct(t);
        if let Some(x) = frecency::note_in(lines.last()) {
            lemma_noted(frecency::notes_in(t), x, x);
        }
    }
}

/// Every line that is an entry counts, and of two lines for one thing the
/// later: a line more puts its entry in place of the one it is of and leaves
/// every other; a line that is none changes nothing.
pub proof fn law_the_last_line_counts(lines: Seq<Seq<char>>, line: Seq<char>, y: Note)
    ensures
        ({
            let before = frecency::notes_in(lines);
            let after = frecency::notes_in(lines.push(line));
            &&& frecency::distinct(before)
            &&& match frecency::note_in(line) {
                Some(x) => after.contains(y) <==> y == x || !same_thing(x, y) && before.contains(y),
                None => after == before,
            }
        }),
        frecency::notes_in(Seq::empty()).len() == 0,
{
    lemma_notes_distinct(lines);
    assert(lines.push(line).drop_last() =~= lines);
    if let Some(x) = frecency::note_in(line) {
        lemma_noted(frecency::notes_in(lines), x, y);
    }
}

/// The line of an entry has its four parts, the numbers in digits.
pub proof fn law_entries_are_written_with_four_parts(x: Note)
    ensures
        frecency::line_of(x) == tabbed(
            x.plugin,
            numbers::shown(x.milli as nat),
            numbers::shown(x.last as nat),
            x.payload,
        ),
        stands_for(numbers::shown(x.milli as nat), x.milli),
        stands_for(numbers::shown(x.last as nat), x.last),
{
    numbers::law_shown_numbers_read_back(x.milli as nat);
    numbers::law_shown_numbers_read_back(x.last as nat);
    assert(frecency::line_of(x) =~= tabbed(
        x.plugin,
        numbers::shown(x.milli as nat),
        numbers::shown(x.last as nat),
        x.payload,
    ));
}

// ---- weights -----------------------------------------------------------------------------------

/// Weights compare as the numbers they are: of two that are not negative the
/// one with the greater bits is greater, every negative one comes below, and
/// of two negative ones the one with the smaller bits is greater. Two stand
/// alike only if they are one.
pub proof fn law_weights_compare_as_numbers(a: u32, b: u32)
    ensures
        a < 0x8000_0000 && b < 0x8000_0000 ==> (frecency::standing_of(a) < frecency::standing_of(b)
            <==> a < b),
        a >= 0x8000_0000 && b < 0x8000_0000 ==> frecency::standing_of(a) < frecency::standing_of(b),
        a >= 0x8000_0000 && b >= 0x8000_0000 ==> (frecency::standing_of(a)
            < frecency::standing_of(b) <==> a > b),
        frecency::standing_of(a) == frecency::standing_of(b) <==> a == b,
{
}

/// What is kept weighs one twentieth or more, and is a number: zero, negative
/// weights and what is no number are dropped.
pub proof fn law_what_lasts(weight: u32)
    ensures
        frecency::lasting(weight) <==> 0x3D4C_CCCD <= weight && weight <= 0x7F80_0000,
        weight == 0 || weight >= 0x8000_0000 ==> !frecency::lasting(weight),
        weight == 0x3F80_0000 ==> frecency::lasting(weight),
{
}

/// Pruning keeps the entries that last, each as it is and in their order, and
/// no others.
pub proof fn law_pruning_keeps_what_lasts(v: Seq<Launch>, faded: Seq<u32>) -> (at: Seq<int>)
    requires
        faded.len() == v.len(),
    ensures
        at.len() == frecency::pruned(v, faded).len(),
        search_laws::ascending(at, v.len() as int),
        forall|i: int|
            0 <= i < at.len() ==> #[trigger] frecency::pruned(v, faded)[i] == v[at[i]],
        forall|k: int|
            0 <= k < v.len() ==> (#[trigger] at.contains(k) <==> 0x3D4C_CCCD <= faded[k]
                <= 0x7F80_0000),
{
    lemma_pruned(v, faded)
}

proof fn lemma_pruned(v: Seq<Launch>, faded: Seq<u32>) -> (at: Seq<int>)
    requires
        faded.len() >= v.len(),
    ensures
        at.len() == frecency::pruned(v, faded).len(),
        search_laws::ascending(at, v.len() as int),
        forall|i: int|
            0 <= i < at.len() ==> #[trigger] frecency::pruned(v, faded)[i] == v[at[i]],
        forall|k: int|
            0 <= k < v.len() ==> (#[trigger] at.contains(k) <==> 0x3D4C_CCCD <= faded[k]
                <= 0x7F80_0000),
    decreases v.len(),
{
    let r = frecency::pruned(v, faded);
    if v.len() == 0 {
        Seq::empty()
    } else {
        let t = v.drop_last();
        let n = t.len() as int;
        let so_far = lemma_pruned(t, faded);
        let before = frecency::pruned(t, faded);
        if frecency::lasting(faded[n]) {
            let at = so_far.push(n);
            assert forall|i: int| 0 <= i < at.len() implies #[trigger] r[i] == v[at[i]] by {
                if i < before.len() {
                    assert(r[i] == before[i]);
                }
            }
            assert forall|k: int| 0 <= k < v.len() implies (#[trigger] at.contains(k)
                <==> 0x3D4C_CCCD <= faded[k] <= 0x7F80_0000) by {
                if k < n {
                    assert(so_far.contains(k) <==> at.contains(k)) by {
                        if so_far.contains(k) {
                            let i = choose|i: int| 0 <= i < so_far.len() && so_far[i] == k;
                            assert(at[i] == k);
                        }
                        if at.contains(k) {
                            let i = choose|i: int| 0 <= i < at.len() && at[i] == k;
                            assert(so_far[i] == k);
                        }
                    }
                } else {
                    assert(at[so_far.len() as int] == k);
                }
            }
            at
        } else {
            assert forall|i: int| 0 <= i < so_far.len() implies #[trigger] r[i] == v[so_far[i]] by {
                assert(before[i] == t[so_far[i]]);
            }
            assert(!so_far.contains(n)) by {
                if so_far.contains(n) {
                    let i = choose|i: int| 0 <= i < so_far.len() && so_far[i] == n;
                    assert(so_far[i] < n);
                }
            }
            so_far
        }
    }
}

// ---- who comes first ---------------------------------------------------------------------------

/// The standings list every entry of the history once, with its own faded
/// weight and the bonus that goes with it, and nothing else: the greater
/// weights first, equal ones by payload.
pub proof fn law_standings_list_every_entry(
    v: Seq<Launch>,
    faded: Seq<u32>,
    bonuses: Seq<u8>,
    i: int,
)
    requires
        0 <= i < v.len(),
    ensures
        frecency::best(v, faded, bonuses).len() == v.len(),
        frecency::best(v, faded, bonuses).contains(
            Weighed {
                plugin: v[i].plugin,
                payload: v[i].payload,
                weight: faded[i],
                bonus: bonuses[i],
            },
        ),
        forall|j: int|
            0 <= j < v.len() ==> is_of_some(
                #[trigger] frecency::best(v, faded, bonuses)[j],
                v,
                faded,
                bonuses,
            ),
        forall|a: int, b: int|
            0 <= a < b < v.len() ==> !ahead(
                #[trigger] frecency::best(v, faded, bonuses)[b],
                #[trigger] frecency::best(v, faded, bonuses)[a],
            ),
{
    broadcast use vstd::seq_lib::group_to_multiset_ensures;

    let all = frecency::weighed(v, faded, bonuses);
    let r = frecency::best(v, faded, bonuses);
    let key = frecency::by_weight();
    order::law_ranking_orders(all, key);
    assert(all.contains(all[i]));
    assert(all.to_multiset().count(all[i]) > 0);
    assert(r.contains(all[i]));
    assert forall|j: int| 0 <= j < v.len() implies is_of_some(
        #[trigger] r[j],
        v,
        faded,
        bonuses,
    ) by {
        assert(r.contains(r[j]));
        assert(r.to_multiset().count(r[j]) > 0);
        assert(all.contains(r[j]));
        let k = choose|k: int| 0 <= k < all.len() && all[k] == r[j];
        assert(pairs_up(r[j], v, faded, bonuses, k));
    }
    assert forall|a: int, b: int| 0 <= a < b < v.len() implies !ahead(
        #[trigger] r[b],
        #[trigger] r[a],
    ) by {
        assert(!order::before(key(r[b]), key(r[a])));
    }
}

/// A standing is that of the entry at `k`, with its weight and bonus.
pub open spec fn pairs_up(
    w: Weighed,
    v: Seq<Launch>,
    faded: Seq<u32>,
    bonuses: Seq<u8>,
    k: int,
) -> bool {
    w.plugin == v[k].plugin && w.payload == v[k].payload && w.weight == faded[k] && w.bonus
        == bonuses[k]
}

/// A standing is that of an entry of the history.
pub open spec fn is_of_some(w: Weighed, v: Seq<Launch>, faded: Seq<u32>, bonuses: Seq<u8>) -> bool {
    exists|k: int| 0 <= k < v.len() && #[trigger] pairs_up(w, v, faded, bonuses, k)
}

/// Greater weights first, equal ones by payload.
pub open spec fn ahead(a: Weighed, b: Weighed) -> bool {
    frecency::standing_of(a.weight) > frecency::standing_of(b.weight) || (a.weight == b.weight
        && order::precedes(a.payload, b.payload))
}

/// The launcher is told of an entry what it goes by and its own bonus.
pub proof fn law_the_launcher_is_told_the_bonus(w: Weighed)
    ensures
        frecency::rank_of(w) == (Rank {
            plugin: w.plugin,
            payload: w.payload,
            bonus: w.bonus as int,
        }),
{
}

// ---- keeping it on disk ------------------------------------------------------------------------

proof fn lemma_restored(v: Seq<Launch>, millis: Seq<u64>, weights: Seq<u32>, n: int)
    requires
        frecency::unique(v),
        0 <= n <= v.len(),
        forall|i: int| 0 <= i < v.len() ==> #[trigger] weights[i] == v[i].weight,
    ensures
        frecency::restored(frecency::kept(v, millis).take(n), weights) == v.take(n),
    decreases n,
{
    let notes = frecency::kept(v, millis);
    if n == 0 {
        assert(frecency::restored(notes.take(0), weights) =~= v.take(0));
    } else {
        lemma_restored(v, millis, weights, n - 1);
        assert(notes.take(n).drop_last() =~= notes.take(n - 1));
        let x = notes.take(n).last();
        assert(x == notes[n - 1]);
        let before = v.take(n - 1);
        let l = Launch {
            plugin: x.plugin,
            payload: x.payload,
            weight: weights[n - 1],
            last: x.last,
        };
        assert(l == v[n - 1]);
        assert forall|j: int| 0 <= j < before.len() implies !frecency::is_of(
            #[trigger] before[j],
            l.plugin,
            l.payload,
        ) by {
            assert(before[j] == v[j]);
            assert(!frecency::is_of(v[j], v[n - 1].plugin, v[n - 1].payload));
        }
        pieces::lemma_first_where_is(
            before,
            |k: Launch| frecency::is_of(k, l.plugin, l.payload),
            before.len() as int,
        );
        assert(frecency::place_of(before, l.plugin, l.payload) == before.len());
        assert(before.push(l) =~= v.take(n));
    }
}

/// A history that is kept on disk and restored is the history it was: every
/// entry, its time, and its weight, given that the thousandths stand for it.
pub proof fn law_a_kept_history_is_restored(v: Seq<Launch>, millis: Seq<u64>, weights: Seq<u32>)
    requires
        frecency::unique(v),
        forall|i: int| 0 <= i < v.len() ==> #[trigger] weights[i] == v[i].weight,
    ensures
        frecency::restored(frecency::kept(v, millis), weights) == v,
        frecency::kept(v, millis).len() == v.len(),
        forall|i: int|
            0 <= i < v.len() ==> (#[trigger] frecency::kept(v, millis)[i]).milli == millis[i]
                && frecency::kept(v, millis)[i].last == v[i].last,
{
    lemma_restored(v, millis, weights, v.len() as int);
    let notes = frecency::kept(v, millis);
    assert(notes.take(v.len() as int) =~= notes);
    assert(v.take(v.len() as int) =~= v);
}

/// The file of a history starts with a line that says what it is, and has a line
/// for every entry below, in the order of the dictionary.
pub proof fn law_how_a_history_is_laid_out(v: Seq<Note>)
    ensures
        frecency::file_of(v) == frecency::HEADER@.push('\n') + frecency::ended(
            order::ranked(v.map_values(|x: Note| frecency::line_of(x)), order::by_text()),
        ),
        frecency::file_of(v).len() > 0 && frecency::file_of(v)[0] == '#',
{
    reveal_strlit("# apex frecency - machine-local launch history, safe to delete");
    assert(frecency::HEADER@[0] == '#');
}

/// Lines are written one after the other, each with a newline behind it.
pub proof fn law_lines_are_ended(lines: Seq<Seq<char>>, line: Seq<char>)
    ensures
        frecency::ended(lines.push(line)) == frecency::ended(lines) + line.push('\n'),
        frecency::ended(Seq::empty()).len() == 0,
{
    assert(lines.push(line).drop_last() =~= lines);
}

} // verus!
