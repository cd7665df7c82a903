//! What the lists show: which rows of which plugin, what past use adds to
//! them, and in what order they stand.
use vstd::prelude::*;
use vstd::string::*;

use crate::app::{self, Listing, Place, Rank, State, World};
use crate::app_laws;
use crate::fuzzy;
use crate::order::{self, Key};
use crate::pieces;
use crate::plugin::{self, Bitmap, Plugin, Row};
use crate::plugins::search_laws;

verus! {

// ---- what past use adds ------------------------------------------------------------------------

/// The launch history has a standing for the entry.
pub open spec fn stands_in(standing: Seq<Rank>, plugin: Seq<char>, payload: Seq<char>) -> bool {
    exists|i: int|
        0 <= i < standing.len() && (#[trigger] standing[i]).plugin == plugin && standing[i].payload
            == payload
}

proof fn lemma_bonus(standing: Seq<Rank>, i: int)
    requires
        0 <= i < standing.len(),
        forall|j: int|
            0 <= j < i ==> !((#[trigger] standing[j]).plugin == standing[i].plugin
                && standing[j].payload == standing[i].payload),
    ensures
        app::bonus_of(standing, standing[i].plugin, standing[i].payload) == standing[i].bonus,
    decreases i,
{
    if i > 0 {
        let t = standing.drop_first();
        assert(!(standing[0].plugin == standing[i].plugin && standing[0].payload
            == standing[i].payload));
        assert(t[i - 1] == standing[i]);
        assert forall|j: int| 0 <= j < i - 1 implies !((#[trigger] t[j]).plugin == t[i - 1].plugin
            && t[j].payload == t[i - 1].payload) by {
            assert(t[j] == standing[j + 1]);
        }
        lemma_bonus(t, i - 1);
    }
}

proof fn lemma_no_bonus(standing: Seq<Rank>, plugin: Seq<char>, payload: Seq<char>)
    requires
        !stands_in(standing, plugin, payload),
    ensures
        app::bonus_of(standing, plugin, payload) == 0,
    decreases standing.len(),
{
    if standing.len() > 0 {
        let t = standing.drop_first();
        assert(!(standing[0].plugin == plugin && standing[0].payload == payload));
        assert(!stands_in(t, plugin, payload)) by {
            if stands_in(t, plugin, payload) {
                let i = choose|i: int|
                    0 <= i < t.len() && (#[trigger] t[i]).plugin == plugin && t[i].payload
                        == payload;
                assert(standing[i + 1] == t[i]);
            }
        }
        lemma_no_bonus(t, plugin, payload);
    }
}

/// Every entry of a launch history that names each entry once gets its own
/// bonus, wherever it stands there; what stands nowhere in it gets none.
pub proof fn law_every_entry_gets_its_own_bonus(standing: Seq<Rank>)
    requires
        app_laws::ranked_once(standing),
    ensures
        forall|i: int|
            0 <= i < standing.len() ==> app::bonus_of(
                standing,
                (#[trigger] standing[i]).plugin,
                standing[i].payload,
            ) == standing[i].bonus,
        forall|plugin: Seq<char>, payload: Seq<char>|
            !stands_in(standing, plugin, payload) ==> #[trigger] app::bonus_of(
                standing,
                plugin,
                payload,
            ) == 0,
{
    assert forall|i: int| 0 <= i < standing.len() implies app::bonus_of(
        standing,
        (#[trigger] standing[i]).plugin,
        standing[i].payload,
    ) == standing[i].bonus by {
        assert forall|j: int| 0 <= j < i implies !((#[trigger] standing[j]).plugin
            == standing[i].plugin && standing[j].payload == standing[i].payload) by {}
        lemma_bonus(standing, i);
    }
    assert forall|plugin: Seq<char>, payload: Seq<char>|
        !stands_in(standing, plugin, payload) implies #[trigger] app::bonus_of(
        standing,
        plugin,
        payload,
    ) == 0 by {
        lemma_no_bonus(standing, plugin, payload);
    }
}

/// `row` as past use leaves it: its score, and its own bonus where the launch
/// history has one, as far as a number can say. Nothing else of it changes.
pub open spec fn raised(row: Row, standing: Seq<Rank>, r: Row) -> bool {
    &&& r == (Row { score: r.score, ..row })
    &&& forall|i: int|
        0 <= i < standing.len() && (#[trigger] standing[i]).plugin == row.plugin
            && standing[i].payload == row.payload ==> r.score == fuzzy::told(
            row.score + standing[i].bonus,
        )
    &&& !stands_in(standing, row.plugin, row.payload) ==> r.score == fuzzy::told(row.score)
}

proof fn lemma_raised(row: Row, standing: Seq<Rank>)
    requires
        app_laws::ranked_once(standing),
    ensures
        raised(row, standing, app::boosted(row, standing)),
{
    law_every_entry_gets_its_own_bonus(standing);
}

// ---- what a query lists ------------------------------------------------------------------------

/// Better scores first, equal scores by title.
pub open spec fn ahead(a: Row, b: Row) -> bool {
    a.score > b.score || (a.score == b.score && order::precedes(a.title, b.title))
}

/// The user has hidden the entry of a row.
pub open spec fn put_away(hidden: Seq<Seq<char>>, row: Row) -> bool {
    hidden.contains(row.plugin.push('/') + row.payload)
}

proof fn lemma_key(row: Row, hidden: Seq<Seq<char>>)
    ensures
        app::is_hidden(hidden, row) == put_away(hidden, row),
{
    reveal_strlit("/");
    assert(app::key_of(row.plugin, row.payload) =~= row.plugin.push('/') + row.payload);
}

proof fn lemma_visible_has(rows: Seq<Row>, hidden: Seq<Seq<char>>, r: Row)
    ensures
        app::visible(rows, hidden).contains(r) <==> rows.contains(r) && !app::is_hidden(hidden, r),
    decreases rows.len(),
{
    if rows.len() > 0 {
        let t = rows.drop_last();
        lemma_visible_has(t, hidden, r);
        let (all, before) = (app::visible(rows, hidden), app::visible(t, hidden));
        assert(rows.contains(r) == (t.contains(r) || rows.last() == r)) by {
            if t.contains(r) {
                let i = choose|i: int| 0 <= i < t.len() && t[i] == r;
                assert(rows[i] == r);
            }
            if rows.contains(r) {
                let i = choose|i: int| 0 <= i < rows.len() && rows[i] == r;
                if i < t.len() {
                    assert(t[i] == r);
                }
            }
            assert(rows[rows.len() - 1] == rows.last());
        }
        if !app::is_hidden(hidden, rows.last()) {
            assert(all.contains(r) == (before.contains(r) || rows.last() == r)) by {
                if before.contains(r) {
                    let i = choose|i: int| 0 <= i < before.len() && before[i] == r;
                    assert(all[i] == r);
                }
                if all.contains(r) {
                    let i = choose|i: int| 0 <= i < all.len() && all[i] == r;
                    if i < before.len() {
                        assert(before[i] == r);
                    }
                }
                assert(all[all.len() - 1] == rows.last());
            }
        }
    }
}

proof fn lemma_all_found_has(plugins: Seq<Box<dyn Plugin>>, q: Seq<char>, r: Row)
    ensures
        app::all_found(plugins, q).contains(r) <==> exists|k: int|
            0 <= k < plugins.len() && (#[trigger] plugins[k]).found(q).contains(r),
    decreases plugins.len(),
{
    if plugins.len() > 0 {
        let t = plugins.drop_last();
        lemma_all_found_has(t, q, r);
        let before = app::all_found(t, q);
        let last = plugins.last().found(q);
        let all = app::all_found(plugins, q);
        assert(all == before + last);
        assert(all.contains(r) == (before.contains(r) || last.contains(r))) by {
            if before.contains(r) {
                let i = choose|i: int| 0 <= i < before.len() && before[i] == r;
                assert(all[i] == r);
            }
            if last.contains(r) {
                let i = choose|i: int| 0 <= i < last.len() && last[i] == r;
                assert(all[before.len() + i] == r);
            }
            if all.contains(r) {
                let i = choose|i: int| 0 <= i < all.len() && all[i] == r;
                if i < before.len() {
                    assert(before[i] == r);
                } else {
                    assert(last[i - before.len()] == r);
                }
            }
        }
        if exists|k: int| 0 <= k < t.len() && (#[trigger] t[k]).found(q).contains(r) {
            let k = choose|k: int| 0 <= k < t.len() && (#[trigger] t[k]).found(q).contains(r);
            assert(plugins[k] == t[k]);
        }
        if exists|k: int| 0 <= k < plugins.len() && (#[trigger] plugins[k]).found(q).contains(r) {
            let k = choose|k: int|
                0 <= k < plugins.len() && (#[trigger] plugins[k]).found(q).contains(r);
            if k < t.len() {
                assert(t[k] == plugins[k]);
            }
        }
        if last.contains(r) {
            assert(plugins[plugins.len() - 1].found(q).contains(r));
        }
    }
}

/// The row is one that a plugin finds, and not hidden.
pub open spec fn to_be_listed(
    plugins: Seq<Box<dyn Plugin>>,
    q: Seq<char>,
    hidden: Seq<Seq<char>>,
    row: Row,
) -> bool {
    &&& exists|k: int| 0 <= k < plugins.len() && (#[trigger] plugins[k]).found(q).contains(row)
    &&& !put_away(hidden, row)
}

/// The row is one that a plugin finds, not hidden, and raised by past use.
pub open spec fn listed_from(
    plugins: Seq<Box<dyn Plugin>>,
    q: Seq<char>,
    hidden: Seq<Seq<char>>,
    standing: Seq<Rank>,
    shown: Row,
) -> bool {
    exists|r: Row| to_be_listed(plugins, q, hidden, r) && #[trigger] raised(r, standing, shown)
}

/// A query lists what the plugins find and the user has not hidden, raised by
/// past use, and nothing else. Everything is listed up to four hundred rows,
/// and what is left out then comes before nothing that is shown. The rows stand
/// by score, equal scores by title.
pub proof fn law_a_query_lists_what_the_plugins_find(
    s: State,
    plugins: Seq<Box<dyn Plugin>>,
    w: World,
    row: Row,
)
    requires
        s.query.text.len() > 0,
        app_laws::ranked_once(w.standing),
    ensures
        ({
            let rows = s.rows_now(plugins, w);
            let q = s.query.text;
            &&& rows.len() <= 400
            &&& forall|i: int|
                0 <= i < rows.len() ==> listed_from(
                    plugins,
                    q,
                    s.hidden,
                    w.standing,
                    #[trigger] rows[i],
                )
            &&& to_be_listed(plugins, q, s.hidden, row) ==> exists|r: Row| #[trigger]
                raised(row, w.standing, r) && (rows.contains(r) || rows.len() == 400 && forall|
                    i: int,
                |
                    0 <= i < rows.len() ==> !ahead(r, #[trigger] rows[i]))
            &&& forall|i: int, j: int|
                0 <= i < j < rows.len() ==> !ahead(#[trigger] rows[j], #[trigger] rows[i])
        }),
{
    broadcast use vstd::seq_lib::group_to_multiset_ensures;

    let rows = s.rows_now(plugins, w);
    let q = s.query.text;
    let all = app::all_found(plugins, q);
    let seen = app::visible(all, s.hidden);
    let boosted = app::all_boosted(seen, w.standing);
    let ranked = order::ranked(boosted, app::by_score());
    let key = app::by_score();
    order::law_ranking_orders(boosted, key);
    assert forall|i: int, j: int| 0 <= i < j < ranked.len() implies !ahead(
        #[trigger] ranked[j],
        #[trigger] ranked[i],
    ) by {
        assert(!order::before(key(ranked[j]), key(ranked[i])));
    }
    assert forall|i: int| 0 <= i < rows.len() implies listed_from(
        plugins,
        q,
        s.hidden,
        w.standing,
        #[trigger] rows[i],
    ) by {
        assert(rows[i] == ranked[i]);
        assert(ranked.contains(rows[i]));
        assert(ranked.to_multiset().count(rows[i]) > 0);
        assert(boosted.contains(rows[i]));
        let k = choose|k: int| 0 <= k < boosted.len() && boosted[k] == rows[i];
        let r = seen[k];
        assert(seen.contains(r));
        lemma_visible_has(all, s.hidden, r);
        lemma_all_found_has(plugins, q, r);
        lemma_key(r, s.hidden);
        lemma_raised(r, w.standing);
        assert(raised(r, w.standing, rows[i]));
    }
    if to_be_listed(plugins, q, s.hidden, row) {
        let r = app::boosted(row, w.standing);
        lemma_raised(row, w.standing);
        lemma_all_found_has(plugins, q, row);
        lemma_key(row, s.hidden);
        lemma_visible_has(all, s.hidden, row);
        let k = choose|k: int| 0 <= k < seen.len() && seen[k] == row;
        assert(boosted[k] == r);
        assert(boosted.contains(r));
        assert(boosted.to_multiset().count(r) > 0);
        assert(ranked.contains(r));
        let at = choose|at: int| 0 <= at < ranked.len() && ranked[at] == r;
        if at < rows.len() {
            assert(rows[at] == r);
            assert(rows.contains(r));
        } else {
            assert forall|i: int| 0 <= i < rows.len() implies !ahead(r, #[trigger] rows[i]) by {
                assert(rows[i] == ranked[i]);
                assert(!ahead(ranked[at], ranked[i]));
            }
        }
    }
    assert forall|i: int, j: int| 0 <= i < j < rows.len() implies !ahead(
        #[trigger] rows[j],
        #[trigger] rows[i],
    ) by {
        assert(rows[i] == ranked[i] && rows[j] == ranked[j]);
    }
}

// ---- the default list --------------------------------------------------------------------------

/// `row` is what the plugin of an id makes of a payload: the first of that
/// name.
pub open spec fn makes(
    plugins: Seq<Box<dyn Plugin>>,
    id: Seq<char>,
    payload: Seq<char>,
    row: Row,
) -> bool {
    exists|k: int|
        0 <= k < plugins.len() && (#[trigger] plugins[k]).name() == id && plugins[k].made(payload)
            == Some(row) && forall|j: int| 0 <= j < k ==> (#[trigger] plugins[j]).name() != id
}

proof fn lemma_makes(plugins: Seq<Box<dyn Plugin>>, id: Seq<char>, payload: Seq<char>)
    ensures
        forall|row: Row|
            app::row_of(plugins, id, payload) == Some(row) <==> #[trigger] makes(
                plugins,
                id,
                payload,
                row,
            ),
{
    app_laws::lemma_plugin_at(plugins, id);
    let at = app::plugin_at(plugins, id);
    assert forall|row: Row| app::row_of(plugins, id, payload) == Some(row) <==> #[trigger] makes(
        plugins,
        id,
        payload,
        row,
    ) by {
        if makes(plugins, id, payload, row) {
            let k = choose|k: int|
                0 <= k < plugins.len() && (#[trigger] plugins[k]).name() == id && plugins[k].made(
                    payload,
                ) == Some(row) && forall|j: int|
                    0 <= j < k ==> (#[trigger] plugins[j]).name() != id;
            if k < at {
                assert(plugins[k].name() != id);
            } else if at < k {
                assert(plugins[at].name() == id);
            }
        }
        if at < plugins.len() {
            assert(plugins[at].name() == id);
        }
    }
}

/// An entry of the launch history that can be suggested: there is still such a
/// thing, and it is not hidden.
pub open spec fn suggestable(
    plugins: Seq<Box<dyn Plugin>>,
    r: Rank,
    hidden: Seq<Seq<char>>,
) -> bool {
    &&& exists|row: Row| #[trigger] makes(plugins, r.plugin, r.payload, row)
    &&& !hidden.contains(r.plugin.push('/') + r.payload)
}

/// The rows are those of the entries at the positions `at` of the launch
/// history: of those that can be suggested, the first five.
pub open spec fn suggests(
    rows: Seq<Row>,
    at: Seq<int>,
    plugins: Seq<Box<dyn Plugin>>,
    standing: Seq<Rank>,
    hidden: Seq<Seq<char>>,
) -> bool {
    &&& at.len() == rows.len()
    &&& rows.len() <= 5
    &&& search_laws::ascending(at, standing.len() as int)
    &&& forall|i: int|
        0 <= i < rows.len() ==> makes(
            plugins,
            standing[at[i]].plugin,
            standing[at[i]].payload,
            #[trigger] rows[i],
        )
    &&& forall|k: int|
        0 <= k < standing.len() && suggestable(plugins, #[trigger] standing[k], hidden)
            ==> at.contains(k) || rows.len() == 5 && at.last() < k
    &&& forall|k: int| #[trigger] at.contains(k) ==> suggestable(plugins, standing[k], hidden)
}

proof fn lemma_suggests(
    plugins: Seq<Box<dyn Plugin>>,
    standing: Seq<Rank>,
    hidden: Seq<Seq<char>>,
) -> (at: Seq<int>)
    ensures
        suggests(app::suggested(plugins, standing, hidden), at, plugins, standing, hidden),
    decreases standing.len(),
{
    let rows = app::suggested(plugins, standing, hidden);
    if standing.len() == 0 {
        Seq::empty()
    } else {
        let t = standing.drop_last();
        let before = app::suggested(plugins, t, hidden);
        let so_far = lemma_suggests(plugins, t, hidden);
        let r = standing.last();
        let n = t.len() as int;
        reveal_strlit("/");
        assert(app::key_of(r.plugin, r.payload) =~= r.plugin.push('/') + r.payload);
        lemma_makes(plugins, r.plugin, r.payload);
        let made = app::row_of(plugins, r.plugin, r.payload);
        assert(suggestable(plugins, r, hidden) <==> made is Some && !hidden.contains(
            app::key_of(r.plugin, r.payload),
        )) by {
            if let Some(row) = made {
                assert(makes(plugins, r.plugin, r.payload, row));
            }
        }
        assert forall|k: int| 0 <= k < n implies #[trigger] standing[k] == t[k] by {}
        if suggestable(plugins, r, hidden) && before.len() < 5 {
            let at = so_far.push(n);
            assert(rows == before.push(made->0));
            assert forall|i: int| 0 <= i < rows.len() implies makes(
                plugins,
                standing[at[i]].plugin,
                standing[at[i]].payload,
                #[trigger] rows[i],
            ) by {
                if i < before.len() {
                    assert(rows[i] == before[i]);
                    assert(standing[at[i]] == t[so_far[i]]);
                }
            }
            assert forall|k: int|
                0 <= k < standing.len() && suggestable(
                    plugins,
                    #[trigger] standing[k],
                    hidden,
                ) implies at.contains(k) || rows.len() == 5 && at.last() < k by {
                if k < n {
                    assert(t[k] == standing[k]);
                    assert(so_far.contains(k));
                    let i = choose|i: int| 0 <= i < so_far.len() && so_far[i] == k;
                    assert(at[i] == k);
                } else {
                    assert(at[so_far.len() as int] == k);
                }
            }
            assert forall|k: int| #[trigger] at.contains(k) implies suggestable(
                plugins,
                standing[k],
                hidden,
            ) by {
                let i = choose|i: int| 0 <= i < at.len() && at[i] == k;
                if i < so_far.len() {
                    assert(so_far[i] == k);
                    assert(so_far.contains(k));
                    assert(standing[k] == t[k]);
                }
            }
            at
        } else {
            assert(rows == before);
            assert forall|i: int| 0 <= i < rows.len() implies makes(
                plugins,
                standing[so_far[i]].plugin,
                standing[so_far[i]].payload,
                #[trigger] rows[i],
            ) by {
                assert(standing[so_far[i]] == t[so_far[i]]);
            }
            assert forall|k: int|
                0 <= k < standing.len() && suggestable(
                    plugins,
                    #[trigger] standing[k],
                    hidden,
                ) implies so_far.contains(k) || rows.len() == 5 && so_far.last() < k by {
                if k < n {
                    assert(t[k] == standing[k]);
                } else {
                    assert(so_far[so_far.len() - 1] < n);
                }
            }
            assert forall|k: int| #[trigger] so_far.contains(k) implies suggestable(
                plugins,
                standing[k],
                hidden,
            ) by {
                let i = choose|i: int| 0 <= i < so_far.len() && so_far[i] == k;
                assert(standing[k] == t[k]);
            }
            so_far
        }
    }
}

/// The suggestions are the most used entries that are still there and not
/// hidden, the best five of them and best first; of the launch history the
/// first four hundred are looked at.
pub proof fn law_suggestions_are_the_most_used(
    plugins: Seq<Box<dyn Plugin>>,
    standing: Seq<Rank>,
    hidden: Seq<Seq<char>>,
) -> (at: Seq<int>)
    ensures
        suggests(app::suggested(plugins, standing, hidden), at, plugins, standing, hidden),
        app::leading(standing) == standing.take(
            if standing.len() < 400 {
                standing.len() as int
            } else {
                400
            },
        ),
{
    assert(standing.take(standing.len() as int) =~= standing);
    lemma_suggests(plugins, standing, hidden)
}

/// The row is one that a plugin lists by itself.
pub open spec fn in_stock(plugins: Seq<Box<dyn Plugin>>, row: Row) -> bool {
    exists|k: int| 0 <= k < plugins.len() && (#[trigger] plugins[k]).stock().contains(row)
}

/// Some row of the list is of the same entry.
pub open spec fn lists_entry(list: Seq<Row>, row: Row) -> bool {
    exists|i: int|
        0 <= i < list.len() && (#[trigger] list[i]).plugin == row.plugin && list[i].payload
            == row.payload
}

proof fn lemma_lists_more(a: Seq<Row>, b: Seq<Row>, row: Row)
    requires
        a.is_prefix_of(b),
        lists_entry(a, row),
    ensures
        lists_entry(b, row),
{
    let i = choose|i: int|
        0 <= i < a.len() && (#[trigger] a[i]).plugin == row.plugin && a[i].payload == row.payload;
    assert(b[i] == a[i]);
}

proof fn lemma_browsed_has(list: Seq<Row>, stock: Seq<Row>, limit: nat, row: Row)
    ensures
        ({
            let all = plugin::browsed(list, stock, limit);
            &&& list.is_prefix_of(all)
            &&& forall|i: int|
                list.len() <= i < all.len() ==> stock.contains(#[trigger] all[i])
            &&& stock.contains(row) ==> lists_entry(all, row) || all.len() >= list.len() + limit
            &&& all.len() <= list.len() + limit
        }),
    decreases stock.len(),
{
    if stock.len() > 0 {
        let t = stock.drop_last();
        lemma_browsed_has(list, t, limit, row);
        let before = plugin::browsed(list, t, limit);
        let all = plugin::browsed(list, stock, limit);
        assert forall|i: int| list.len() <= i < all.len() implies stock.contains(
            #[trigger] all[i],
        ) by {
            if i < before.len() {
                assert(all[i] == before[i]);
                assert(t.contains(before[i]));
                let k = choose|k: int| 0 <= k < t.len() && t[k] == before[i];
                assert(stock[k] == all[i]);
            } else {
                assert(stock[stock.len() - 1] == all[i]);
            }
        }
        if stock.contains(row) {
            let k = choose|k: int| 0 <= k < stock.len() && stock[k] == row;
            assert(before.is_prefix_of(all));
            if k < t.len() {
                assert(t[k] == row);
                if lists_entry(before, row) {
                    lemma_lists_more(before, all, row);
                }
            } else if before.len() - list.len() < limit {
                if !plugin::present(before, row) {
                    assert(all[all.len() - 1] == row);
                } else {
                    assert(lists_entry(before, row));
                }
            }
        }
    }
}

proof fn lemma_padded_has(plugins: Seq<Box<dyn Plugin>>, rows: Seq<Row>, row: Row)
    ensures
        ({
            let all = app::padded(plugins, rows);
            &&& rows.is_prefix_of(all)
            &&& forall|i: int|
                rows.len() <= i < all.len() ==> in_stock(plugins, #[trigger] all[i])
            &&& in_stock(plugins, row) ==> lists_entry(all, row) || all.len() >= 400
            &&& all.len() <= 400 || all.len() == rows.len()
        }),
    decreases plugins.len(),
{
    if plugins.len() > 0 {
        let t = plugins.drop_last();
        lemma_padded_has(t, rows, row);
        let before = app::padded(t, rows);
        let all = app::padded(plugins, rows);
        let stock = plugins.last().stock();
        if before.len() < 400 {
            lemma_browsed_has(before, stock, (400 - before.len()) as nat, row);
        }
        assert forall|i: int| rows.len() <= i < all.len() implies in_stock(
            plugins,
            #[trigger] all[i],
        ) by {
            if i < before.len() {
                assert(all[i] == before[i]);
                assert(in_stock(t, before[i]));
                let k = choose|k: int|
                    0 <= k < t.len() && (#[trigger] t[k]).stock().contains(before[i]);
                assert(plugins[k] == t[k]);
            } else {
                assert(plugins[plugins.len() - 1].stock().contains(all[i]));
            }
        }
        if in_stock(plugins, row) && all.len() < 400 {
            let k = choose|k: int|
                0 <= k < plugins.len() && (#[trigger] plugins[k]).stock().contains(row);
            if k < t.len() {
                assert(t[k] == plugins[k]);
                assert(in_stock(t, row));
                lemma_lists_more(before, all, row);
            }
        }
    }
}

/// The default list shows the suggestions, then what the plugins list by
/// themselves: nothing else, nothing hidden, and of every entry that is not
/// hidden a row, unless the list is full.
pub proof fn law_the_default_list_shows_everything(
    plugins: Seq<Box<dyn Plugin>>,
    hidden: Seq<Seq<char>>,
    standing: Seq<Rank>,
    row: Row,
)
    requires
        app_laws::tidy(plugins),
    ensures
        ({
            let first = app::suggested(plugins, app::leading(standing), hidden);
            let rows = app::default_rows(plugins, hidden, standing);
            let full = app::padded(plugins, first).len() >= 400;
            &&& first.is_prefix_of(rows)
            &&& forall|i: int|
                first.len() <= i < rows.len() ==> in_stock(plugins, #[trigger] rows[i])
            &&& forall|i: int| 0 <= i < rows.len() ==> !put_away(hidden, #[trigger] rows[i])
            &&& in_stock(plugins, row) && !put_away(hidden, row) && !full ==> lists_entry(rows, row)
        }),
{
    let first = app::suggested(plugins, app::leading(standing), hidden);
    let all = app::padded(plugins, first);
    let rows = app::default_rows(plugins, hidden, standing);
    app_laws::law_suggestions_come_first(plugins, hidden, standing);
    lemma_padded_has(plugins, first, row);
    let more = all.skip(first.len() as int);
    assert(all =~= first + more);
    lemma_visible_len(first, hidden);
    lemma_visible_tail(first, more, hidden, plugins);
    assert forall|i: int| 0 <= i < rows.len() implies !put_away(hidden, #[trigger] rows[i]) by {
        lemma_visible_has(all, hidden, rows[i]);
        assert(rows.contains(rows[i]));
        lemma_key(rows[i], hidden);
    }
    if in_stock(plugins, row) && !put_away(hidden, row) && all.len() < 400 {
        let i = choose|i: int|
            0 <= i < all.len() && (#[trigger] all[i]).plugin == row.plugin && all[i].payload
                == row.payload;
        lemma_key(all[i], hidden);
        lemma_visible_has(all, hidden, all[i]);
        assert(all.contains(all[i]));
        let j = choose|j: int| 0 <= j < rows.len() && rows[j] == all[i];
        assert(rows[j].plugin == row.plugin);
    }
}

proof fn lemma_visible_len(rows: Seq<Row>, hidden: Seq<Seq<char>>)
    ensures
        app::visible(rows, hidden).len() <= rows.len(),
    decreases rows.len(),
{
    if rows.len() > 0 {
        lemma_visible_len(rows.drop_last(), hidden);
    }
}

proof fn lemma_visible_tail(
    first: Seq<Row>,
    more: Seq<Row>,
    hidden: Seq<Seq<char>>,
    plugins: Seq<Box<dyn Plugin>>,
)
    requires
        forall|i: int|
            first.len() <= i < (first + more).len() ==> in_stock(
                plugins,
                #[trigger] (first + more)[i],
            ),
        app::visible(first, hidden).len() <= first.len(),
    ensures
        forall|i: int|
            first.len() <= i < app::visible(first + more, hidden).len() ==> in_stock(
                plugins,
                #[trigger] app::visible(first + more, hidden)[i],
            ),
    decreases more.len(),
{
    let all = first + more;
    let seen = app::visible(all, hidden);
    if more.len() > 0 {
        let t = more.drop_last();
        assert(all.drop_last() =~= first + t);
        assert forall|i: int| first.len() <= i < (first + t).len() implies in_stock(
            plugins,
            #[trigger] (first + t)[i],
        ) by {
            assert((first + t)[i] == all[i]);
        }
        lemma_visible_tail(first, t, hidden, plugins);
        let before = app::visible(first + t, hidden);
        assert forall|i: int| first.len() <= i < seen.len() implies in_stock(
            plugins,
            #[trigger] seen[i],
        ) by {
            if i < before.len() {
                assert(seen[i] == before[i]);
            } else {
                assert(seen[i] == all[all.len() - 1]);
            }
        }
    } else {
        assert(all =~= first);
    }
}

/// The default list has a heading over the suggestions if there are any, at
/// the top, and one over what follows them if anything does, right behind
/// them.
pub proof fn law_the_headings_of_the_default_list(
    plugins: Seq<Box<dyn Plugin>>,
    hidden: Seq<Seq<char>>,
    standing: Seq<Rank>,
)
    ensures
        ({
            let n = app::suggested(plugins, app::leading(standing), hidden).len() as int;
            let rows = app::default_rows(plugins, hidden, standing);
            let heads = app::default_sections(plugins, hidden, standing);
            &&& heads.contains((0int, "Suggestions"@)) <==> n > 0
            &&& heads.contains((n, "Commands"@)) <==> rows.len() > n
            &&& forall|i: int|
                0 <= i < heads.len() ==> #[trigger] heads[i] == (0int, "Suggestions"@) || heads[i]
                    == (n, "Commands"@)
            &&& forall|i: int, j: int|
                0 <= i < j < heads.len() ==> (#[trigger] heads[i]).0 < (#[trigger] heads[j]).0
        }),
{
    reveal_strlit("Suggestions");
    reveal_strlit("Commands");
    let n = app::suggested(plugins, app::leading(standing), hidden).len() as int;
    let rows = app::default_rows(plugins, hidden, standing);
    let heads = app::default_sections(plugins, hidden, standing);
    if n > 0 {
        assert(heads[0] == (0int, "Suggestions"@));
    }
    if rows.len() > n {
        assert(heads[heads.len() - 1] == (n, "Commands"@));
    }
    assert("Suggestions"@.len() != "Commands"@.len());
}

// ---- the lists that are there to be reviewed --------------------------------------------------

/// A key of an entry names it alone, whatever its payload, as no plugin's id
/// holds a slash.
pub proof fn law_keys_tell_entries_apart(
    a: Seq<char>,
    x: Seq<char>,
    b: Seq<char>,
    y: Seq<char>,
)
    requires
        !a.contains('/'),
        !b.contains('/'),
    ensures
        app::key_of(a, x) == app::key_of(b, y) <==> a == b && x == y,
{
    reveal_strlit("/");
    let (k, l) = (app::key_of(a, x), app::key_of(b, y));
    if k == l {
        assert(k[a.len() as int] == '/' && l[b.len() as int] == '/');
        if a.len() < b.len() {
            assert(b[a.len() as int] == l[a.len() as int]);
            assert(b.contains('/'));
        } else if b.len() < a.len() {
            assert(a[b.len() as int] == k[b.len() as int]);
            assert(a.contains('/'));
        }
        assert(k.take(a.len() as int) =~= a);
        assert(l.take(b.len() as int) =~= b);
        assert(k.skip(a.len() as int + 1) =~= x);
        assert(l.skip(b.len() as int + 1) =~= y);
    }
}

proof fn lemma_hidden_rows_have(
    plugins: Seq<Box<dyn Plugin>>,
    keys: Seq<Seq<char>>,
    id: Seq<char>,
    payload: Seq<char>,
    row: Row,
)
    requires
        !id.contains('/'),
        keys.contains(id.push('/') + payload),
        makes(plugins, id, payload, row),
    ensures
        app::hidden_rows(plugins, keys).contains(row),
    decreases keys.len(),
{
    let key = id.push('/') + payload;
    let all = app::hidden_rows(plugins, keys);
    let t = keys.drop_last();
    let before = app::hidden_rows(plugins, t);
    if keys.last() == key {
        let n = id.len() as int;
        assert(key[n] == '/');
        assert forall|j: int| 0 <= j < n implies key[j] != '/' by {
            assert(key[j] == id[j]);
        }
        pieces::lemma_first_of_is(key, '/', n);
        assert(key.take(n) =~= id);
        assert(key.skip(n + 1) =~= payload);
        lemma_makes(plugins, id, payload);
        assert(all == before.push(row));
        assert(all[before.len() as int] == row);
    } else {
        let i = choose|i: int| 0 <= i < keys.len() && keys[i] == key;
        assert(t[i] == key);
        lemma_hidden_rows_have(plugins, t, id, payload, row);
        let j = choose|j: int| 0 <= j < before.len() && before[j] == row;
        assert(all[j] == row);
    }
}

/// The row is what a plugin makes of the payload that a key names.
pub open spec fn of_a_key(
    plugins: Seq<Box<dyn Plugin>>,
    keys: Seq<Seq<char>>,
    row: Row,
) -> bool {
    exists|id: Seq<char>, payload: Seq<char>|
        keys.contains(id.push('/') + payload) && #[trigger] makes(plugins, id, payload, row)
}

proof fn lemma_hidden_rows_from(
    plugins: Seq<Box<dyn Plugin>>,
    keys: Seq<Seq<char>>,
    i: int,
)
    requires
        0 <= i < app::hidden_rows(plugins, keys).len(),
    ensures
        of_a_key(plugins, keys, app::hidden_rows(plugins, keys)[i]),
    decreases keys.len(),
{
    if keys.len() > 0 {
        let all = app::hidden_rows(plugins, keys);
        let t = keys.drop_last();
        let before = app::hidden_rows(plugins, t);
        if i < before.len() {
            lemma_hidden_rows_from(plugins, t, i);
            let (id, payload) = choose|id: Seq<char>, payload: Seq<char>|
                t.contains(id.push('/') + payload) && #[trigger] makes(
                    plugins,
                    id,
                    payload,
                    before[i],
                );
            let k = choose|k: int| 0 <= k < t.len() && t[k] == id.push('/') + payload;
            assert(keys[k] == id.push('/') + payload);
            assert(all[i] == before[i]);
            assert(makes(plugins, id, payload, all[i]));
        } else {
            let k = keys[keys.len() - 1];
            let slash = pieces::first_of(k, '/');
            pieces::lemma_first_of(k, '/');
            let (id, payload) = (k.take(slash), k.skip(slash + 1));
            assert(k =~= id.push('/') + payload);
            lemma_makes(plugins, id, payload);
            assert(makes(plugins, id, payload, all[i]));
            assert(keys.contains(k));
        }
    }
}

/// The list of hidden entries shows a row for everything that is hidden and
/// still there, and for nothing else.
pub proof fn law_the_hidden_list_shows_what_is_hidden(
    s: State,
    plugins: Seq<Box<dyn Plugin>>,
    w: World,
    id: Seq<char>,
    payload: Seq<char>,
    row: Row,
)
    requires
        s.query.text.len() == 0,
        s.listing is Hidden,
        !id.contains('/'),
    ensures
        s.hidden.contains(id.push('/') + payload) && makes(plugins, id, payload, row)
            ==> s.rows_now(plugins, w).contains(row),
        forall|i: int|
            0 <= i < s.rows_now(plugins, w).len() ==> of_a_key(
                plugins,
                s.hidden,
                #[trigger] s.rows_now(plugins, w)[i],
            ),
        s.sections_now(plugins, w) == if s.rows_now(plugins, w).len() > 0 {
            seq![(0int, "Hidden"@)]
        } else {
            Seq::empty()
        },
{
    broadcast use vstd::seq_lib::group_to_multiset_ensures;

    let keys = order::ranked(s.hidden, order::by_text());
    order::law_ranking_orders(s.hidden, order::by_text());
    assert forall|k: Seq<char>| #[trigger] keys.contains(k) <==> s.hidden.contains(k) by {
        assert(keys.to_multiset().count(k) == s.hidden.to_multiset().count(k));
    }
    let rows = s.rows_now(plugins, w);
    assert forall|i: int| 0 <= i < rows.len() implies of_a_key(
        plugins,
        s.hidden,
        #[trigger] rows[i],
    ) by {
        lemma_hidden_rows_from(plugins, keys, i);
        let (a, b) = choose|a: Seq<char>, b: Seq<char>|
            keys.contains(a.push('/') + b) && #[trigger] makes(plugins, a, b, rows[i]);
        assert(makes(plugins, a, b, rows[i]));
    }
    if s.hidden.contains(id.push('/') + payload) && makes(plugins, id, payload, row) {
        assert(keys.contains(id.push('/') + payload));
        lemma_hidden_rows_have(plugins, keys, id, payload, row);
    }
}

/// The list of source folders shows every folder once, in order, by its name,
/// and goes by its path; no plugin owns the rows.
pub proof fn law_the_source_list_shows_every_folder(
    s: State,
    plugins: Seq<Box<dyn Plugin>>,
    w: World,
)
    requires
        s.query.text.len() == 0,
        s.listing is Sources,
    ensures
        s.rows_now(plugins, w).len() == w.sources.len(),
        forall|i: int|
            0 <= i < w.sources.len() ==> {
                let row = #[trigger] s.rows_now(plugins, w)[i];
                &&& row.payload == w.sources[i].path
                &&& row.title == w.sources[i].name
                &&& row.plugin == "__shell"@
                &&& row.icon == w.folder_icon
                &&& row.subtitle == "Source folder"@
                &&& row.badge is None
                &&& row.category == ""@
                &&& row.score == 0
            },
        s.sections_now(plugins, w) == if w.sources.len() > 0 {
            seq![(0int, "Source folders"@)]
        } else {
            Seq::empty()
        },
{
}

/// What the list shows hangs on the query and on which catalogue is asked for:
/// with a query there are no headings and the special listings are left; with
/// none, the default list is the one of the ordinary catalogue, and it is
/// capped at four hundred rows.
pub proof fn law_which_list_is_shown(s: State, plugins: Seq<Box<dyn Plugin>>, w: World)
    ensures
        s.query.text.len() > 0 ==> s.sections_now(plugins, w).len() == 0
            && s.listing_now() is Normal,
        s.query.text.len() == 0 ==> s.listing_now() == s.listing,
        s.query.text.len() == 0 && s.listing is Normal ==> s.rows_now(plugins, w)
            == app::default_rows(plugins, s.hidden, w.standing).take(
            if app::default_rows(plugins, s.hidden, w.standing).len() < 400 {
                app::default_rows(plugins, s.hidden, w.standing).len() as int
            } else {
                400
            },
        ),
        s.query.text.len() == 0 && s.listing is Normal ==> s.sections_now(plugins, w)
            == app::default_sections(plugins, s.hidden, w.standing),
{
    let all = app::default_rows(plugins, s.hidden, w.standing);
    assert(all.take(all.len() as int) =~= all);
}

// ---- in what order --------------------------------------------------------------------------

/// An entry that stands in the launch history more than once gets the bonus of
/// its first standing.
pub proof fn law_the_first_standing_counts(standing: Seq<Rank>, i: int)
    requires
        0 <= i < standing.len(),
        forall|j: int|
            0 <= j < i ==> !((#[trigger] standing[j]).plugin == standing[i].plugin
                && standing[j].payload == standing[i].payload),
    ensures
        app::bonus_of(standing, standing[i].plugin, standing[i].payload) == standing[i].bonus,
{
    lemma_bonus(standing, i);
}

/// Hiding takes rows out and leaves the others as they are and in order.
pub proof fn law_hiding_keeps_the_order(rows: Seq<Row>, hidden: Seq<Seq<char>>)
    ensures
        app::visible(rows, hidden) == rows.filter(|r: Row| !put_away(hidden, r)),
    decreases rows.len(),
{
    reveal(Seq::filter);
    if rows.len() > 0 {
        law_hiding_keeps_the_order(rows.drop_last(), hidden);
        lemma_key(rows.last(), hidden);
    }
}

/// The plugins are asked one after the other, and what a later one finds stands
/// behind what an earlier one does.
pub proof fn law_plugins_are_asked_in_order(
    plugins: Seq<Box<dyn Plugin>>,
    q: Seq<char>,
    rows: Seq<Row>,
)
    ensures
        plugins.len() == 0 ==> app::all_found(plugins, q).len() == 0 && app::padded(plugins, rows)
            == rows,
        plugins.len() > 0 ==> {
            let earlier = plugins.drop_last();
            let before = app::padded(earlier, rows);
            &&& app::all_found(plugins, q) == app::all_found(earlier, q) + plugins.last().found(q)
            &&& before.len() < 400 ==> app::padded(plugins, rows) == plugin::browsed(
                before,
                plugins.last().stock(),
                (400 - before.len()) as nat,
            )
            &&& before.len() >= 400 ==> app::padded(plugins, rows) == before
        },
{
}

/// Browsing goes through the stock in order: a row is added behind the list
/// unless its entry is there already or enough were added.
pub proof fn law_browsing_goes_in_order(list: Seq<Row>, stock: Seq<Row>, row: Row, limit: nat)
    ensures
        plugin::browsed(list, Seq::empty(), limit) == list,
        ({
            let before = plugin::browsed(list, stock, limit);
            plugin::browsed(list, stock.push(row), limit) == if lists_entry(before, row)
                || before.len() >= list.len() + limit {
                before
            } else {
                before.push(row)
            }
        }),
{
    let before = plugin::browsed(list, stock, limit);
    assert(stock.push(row).drop_last() =~= stock);
    assert(plugin::present(before, row) == lists_entry(before, row));
}

/// The hidden entries are listed in the order of their keys.
pub proof fn law_hidden_entries_are_listed_by_key(
    plugins: Seq<Box<dyn Plugin>>,
    keys: Seq<Seq<char>>,
    id: Seq<char>,
    payload: Seq<char>,
    row: Row,
)
    requires
        !id.contains('/'),
    ensures
        makes(plugins, id, payload, row) ==> app::hidden_rows(
            plugins,
            keys.push(id.push('/') + payload),
        ) == app::hidden_rows(plugins, keys).push(row),
        (forall|r: Row| !(#[trigger] makes(plugins, id, payload, r))) ==> app::hidden_rows(
            plugins,
            keys.push(id.push('/') + payload),
        ) == app::hidden_rows(plugins, keys),
        forall|i: int, j: int|
            0 <= i < j < order::ranked(keys, order::by_text()).len() ==> !order::precedes(
                #[trigger] order::ranked(keys, order::by_text())[j],
                #[trigger] order::ranked(keys, order::by_text())[i],
            ),
{
    let key = id.push('/') + payload;
    let n = id.len() as int;
    assert(key[n] == '/');
    assert forall|j: int| 0 <= j < n implies key[j] != '/' by {
        assert(key[j] == id[j]);
    }
    pieces::lemma_first_of_is(key, '/', n);
    assert(key.take(n) =~= id);
    assert(key.skip(n + 1) =~= payload);
    assert(keys.push(key).drop_last() =~= keys);
    lemma_makes(plugins, id, payload);
    if let Some(r) = app::row_of(plugins, id, payload) {
        assert(makes(plugins, id, payload, r));
    }
    let sorted = order::ranked(keys, order::by_text());
    let text_of = order::by_text();
    order::law_ranking_orders(keys, text_of);
    assert forall|i: int, j: int| 0 <= i < j < sorted.len() implies !order::precedes(
        #[trigger] sorted[j],
        #[trigger] sorted[i],
    ) by {
        assert(!order::before(text_of(sorted[j]), text_of(sorted[i])));
    }
}

} // verus!
