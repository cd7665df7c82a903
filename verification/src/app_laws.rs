//! What holds of the launcher's lists, whatever the plugins find.
use vstd::prelude::*;
use vstd::string::*;

use crate::app::{self, Listing, Place, Rank, State, World};
use crate::config;
use crate::frecency::{self, Launch, Weighed};
use crate::fuzzy;
use crate::order;
use crate::plugin::{self, Answer, Bitmap, Outcome, Plugin, Row};
use crate::plugins::search;
use crate::render;
use crate::rewrite;
use crate::rewrite_laws;
use crate::scene::{self, Shape};

verus! {

// ---- what the lists hold ----------------------------------------------------------------

proof fn lemma_visible(rows: Seq<Row>, hidden: Seq<Seq<char>>)
    ensures
        app::visible(rows, hidden).len() <= rows.len(),
        forall|i: int|
            0 <= i < app::visible(rows, hidden).len() ==> !app::is_hidden(
                hidden,
                #[trigger] app::visible(rows, hidden)[i],
            ),
    decreases rows.len(),
{
    if rows.len() > 0 {
        lemma_visible(rows.drop_last(), hidden);
    }
}

/// A list never grows past its limit.
pub proof fn law_lists_are_bounded(s: State, plugins: Seq<Box<dyn Plugin>>, w: World)
    requires
        s.listing_now() is Normal,
    ensures
        s.rows_now(plugins, w).len() <= app::MAX_RESULTS,
{
}

/// Nothing that is hidden is listed, whichever plugin found it.
pub proof fn law_hidden_entries_are_not_listed(
    s: State,
    plugins: Seq<Box<dyn Plugin>>,
    w: World,
    i: int,
)
    requires
        s.listing_now() is Normal,
        0 <= i < s.rows_now(plugins, w).len(),
    ensures
        !app::is_hidden(s.hidden, s.rows_now(plugins, w)[i]),
{
    broadcast use vstd::seq_lib::group_to_multiset_ensures;

    if s.query.text.len() == 0 {
        let all = app::padded(
            plugins,
            app::suggested(plugins, app::leading(w.standing), s.hidden),
        );
        lemma_visible(all, s.hidden);
        let rows = app::default_rows(plugins, s.hidden, w.standing);
        assert(s.rows_now(plugins, w)[i] == rows[i]);
    } else {
        let found = app::visible(app::all_found(plugins, s.query.text), s.hidden);
        lemma_visible(app::all_found(plugins, s.query.text), s.hidden);
        let boosted = app::all_boosted(found, w.standing);
        let ranked = order::ranked(boosted, app::by_score());
        order::law_ranking_orders(boosted, app::by_score());
        let row = s.rows_now(plugins, w)[i];
        assert(row == ranked[i]);
        assert(ranked.contains(row));
        assert(ranked.to_multiset().count(row) > 0);
        assert(boosted.contains(row));
        let k = choose|k: int| 0 <= k < boosted.len() && boosted[k] == row;
        assert(boosted[k] == app::boosted(found[k], w.standing));
        assert(!app::is_hidden(s.hidden, found[k]));
    }
}

/// The rows for a query stand in the order of their scores, equal scores in
/// the order of their titles.
pub proof fn law_queries_rank_by_score(s: State, plugins: Seq<Box<dyn Plugin>>, w: World)
    requires
        s.query.text.len() > 0,
    ensures
        order::in_order(s.rows_now(plugins, w), app::by_score()),
{
    let found = app::visible(app::all_found(plugins, s.query.text), s.hidden);
    let boosted = app::all_boosted(found, w.standing);
    order::law_ranking_orders(boosted, app::by_score());
    let ranked = order::ranked(boosted, app::by_score());
    let rows = s.rows_now(plugins, w);
    let key = app::by_score();
    assert forall|i: int, j: int| 0 <= i < j < rows.len() implies !order::before(
        #[trigger] key(rows[j]),
        #[trigger] key(rows[i]),
    ) by {
        assert(rows[i] == ranked[i] && rows[j] == ranked[j]);
    }
}

/// Typing leaves the lists that are there to be reviewed.
pub proof fn law_typing_leaves_the_special_listings(
    s: State,
    plugins: Seq<Box<dyn Plugin>>,
    w: World,
)
    requires
        s.query.text.len() > 0,
    ensures
        s.refreshed(plugins, w).listing is Normal,
{
}

/// Every plugin's rows are its own.
pub open spec fn tidy(plugins: Seq<Box<dyn Plugin>>) -> bool {
    forall|i: int| 0 <= i < plugins.len() ==> plugin::owns_its_rows(&*(#[trigger] plugins[i]))
}

/// No two plugins have one name.
pub open spec fn told_apart(plugins: Seq<Box<dyn Plugin>>) -> bool {
    forall|i: int, j: int|
        0 <= i < j < plugins.len() ==> (#[trigger] plugins[i]).name() != (
        #[trigger] plugins[j]).name()
}

pub proof fn lemma_plugin_at(plugins: Seq<Box<dyn Plugin>>, id: Seq<char>)
    ensures
        0 <= app::plugin_at(plugins, id) <= plugins.len(),
        app::plugin_at(plugins, id) < plugins.len() ==> plugins[app::plugin_at(
            plugins,
            id,
        )].name() == id,
        forall|i: int|
            0 <= i < app::plugin_at(plugins, id) ==> (#[trigger] plugins[i]).name() != id,
    decreases plugins.len(),
{
    if plugins.len() > 0 && plugins[0].name() != id {
        let t = plugins.drop_first();
        lemma_plugin_at(t, id);
        assert forall|i: int| 0 <= i < app::plugin_at(plugins, id) implies (
        #[trigger] plugins[i]).name() != id by {
            if i > 0 {
                assert(t[i - 1] == plugins[i]);
            }
        }
    }
}

/// A row made of a payload goes by the name it was asked for.
proof fn lemma_row_of(plugins: Seq<Box<dyn Plugin>>, id: Seq<char>, payload: Seq<char>)
    requires
        tidy(plugins),
    ensures
        app::row_of(plugins, id, payload) matches Some(row) ==> row.plugin == id && row.payload
            == payload,
{
    lemma_plugin_at(plugins, id);
    let k = app::plugin_at(plugins, id);
    if k < plugins.len() {
        assert(plugin::owns_its_rows(&*plugins[k]));
    }
}

proof fn lemma_browsed_prefix(list: Seq<Row>, stock: Seq<Row>, limit: nat)
    ensures
        list.is_prefix_of(plugin::browsed(list, stock, limit)),
        plugin::browsed(list, stock, limit).len() <= list.len() + limit,
    decreases stock.len(),
{
    if stock.len() > 0 {
        lemma_browsed_prefix(list, stock.drop_last(), limit);
    }
}

/// Browsing keeps what is there and adds no more rows than asked for.
pub proof fn law_browsing_is_bounded(list: Seq<Row>, stock: Seq<Row>, limit: nat)
    ensures
        list.is_prefix_of(plugin::browsed(list, stock, limit)),
        plugin::browsed(list, stock, limit).len() <= list.len() + limit,
{
    lemma_browsed_prefix(list, stock, limit);
}

proof fn lemma_padded_prefix(plugins: Seq<Box<dyn Plugin>>, rows: Seq<Row>)
    ensures
        rows.is_prefix_of(app::padded(plugins, rows)),
    decreases plugins.len(),
{
    if plugins.len() > 0 {
        let before = app::padded(plugins.drop_last(), rows);
        lemma_padded_prefix(plugins.drop_last(), rows);
        if before.len() < app::MAX_RESULTS {
            lemma_browsed_prefix(
                before,
                plugins.last().stock(),
                (app::MAX_RESULTS - before.len()) as nat,
            );
        }
    }
}

proof fn lemma_visible_keeps(rows: Seq<Row>, more: Seq<Row>, hidden: Seq<Seq<char>>)
    requires
        forall|i: int| 0 <= i < rows.len() ==> !app::is_hidden(hidden, #[trigger] rows[i]),
    ensures
        rows.is_prefix_of(app::visible(rows + more, hidden)),
    decreases more.len(),
{
    if more.len() > 0 {
        lemma_visible_keeps(rows, more.drop_last(), hidden);
        assert((rows + more).drop_last() =~= rows + more.drop_last());
    } else {
        assert(rows + more =~= rows);
        lemma_visible_all(rows, hidden);
    }
}

proof fn lemma_visible_all(rows: Seq<Row>, hidden: Seq<Seq<char>>)
    requires
        forall|i: int| 0 <= i < rows.len() ==> !app::is_hidden(hidden, #[trigger] rows[i]),
    ensures
        app::visible(rows, hidden) == rows,
    decreases rows.len(),
{
    if rows.len() > 0 {
        let t = rows.drop_last();
        assert forall|i: int| 0 <= i < t.len() implies !app::is_hidden(hidden, #[trigger] t[i]) by {
            assert(t[i] == rows[i]);
        }
        lemma_visible_all(t, hidden);
        assert(t.push(rows.last()) =~= rows);
    }
}

proof fn lemma_suggested(
    plugins: Seq<Box<dyn Plugin>>,
    standing: Seq<Rank>,
    hidden: Seq<Seq<char>>,
)
    requires
        tidy(plugins),
    ensures
        app::suggested(plugins, standing, hidden).len() <= app::MAX_SUGGESTIONS,
        forall|i: int|
            0 <= i < app::suggested(plugins, standing, hidden).len() ==> !app::is_hidden(
                hidden,
                #[trigger] app::suggested(plugins, standing, hidden)[i],
            ),
        forall|i: int|
            0 <= i < app::suggested(plugins, standing, hidden).len() ==> ranks_row(
                standing,
                #[trigger] app::suggested(plugins, standing, hidden)[i],
            ),
    decreases standing.len(),
{
    if standing.len() > 0 {
        let t = standing.drop_last();
        lemma_suggested(plugins, t, hidden);
        let r = standing.last();
        lemma_row_of(plugins, r.plugin, r.payload);
        let all = app::suggested(plugins, standing, hidden);
        let before = app::suggested(plugins, t, hidden);
        assert forall|i: int| 0 <= i < all.len() implies ranks_row(standing, #[trigger] all[i]) by {
            if i < before.len() {
                assert(all[i] == before[i]);
                assert(ranks_row(t, before[i]));
                let k = choose|k: int|
                    0 <= k < t.len() && (#[trigger] t[k]).plugin == before[i].plugin && t[k].payload
                        == before[i].payload;
                assert(standing[k] == t[k]);
            } else {
                assert(standing[standing.len() - 1] == r);
            }
        }
    }
}

/// The row is that of an entry of the launch history.
pub open spec fn ranks_row(standing: Seq<Rank>, row: Row) -> bool {
    exists|k: int|
        0 <= k < standing.len() && (#[trigger] standing[k]).plugin == row.plugin
            && standing[k].payload == row.payload
}

/// The default list starts with the suggestions, whatever is hidden: those
/// that are were left out before, so the heading of what follows stays where
/// it belongs.
pub proof fn law_suggestions_come_first(
    plugins: Seq<Box<dyn Plugin>>,
    hidden: Seq<Seq<char>>,
    standing: Seq<Rank>,
)
    requires
        tidy(plugins),
    ensures
        app::suggested(plugins, app::leading(standing), hidden).is_prefix_of(
            app::default_rows(plugins, hidden, standing),
        ),
        app::suggested(plugins, app::leading(standing), hidden).len() <= app::MAX_SUGGESTIONS,
{
    let first = app::suggested(plugins, app::leading(standing), hidden);
    lemma_suggested(plugins, app::leading(standing), hidden);
    lemma_padded_prefix(plugins, first);
    let all = app::padded(plugins, first);
    let more = all.skip(first.len() as int);
    assert(all =~= first + more);
    lemma_visible_keeps(first, more, hidden);
}

/// The entries of the launch history that are not hidden.
pub open spec fn unhidden(standing: Seq<Rank>, hidden: Seq<Seq<char>>) -> Seq<Rank>
    decreases standing.len(),
{
    if standing.len() == 0 {
        standing
    } else {
        let before = unhidden(standing.drop_last(), hidden);
        let r = standing.last();
        if hidden.contains(app::key_of(r.plugin, r.payload)) {
            before
        } else {
            before.push(r)
        }
    }
}

/// Hidden entries take no place among the suggestions.
pub proof fn law_hidden_entries_take_no_suggestion(
    plugins: Seq<Box<dyn Plugin>>,
    standing: Seq<Rank>,
    hidden: Seq<Seq<char>>,
)
    ensures
        app::suggested(plugins, standing, hidden) == app::suggested(
            plugins,
            unhidden(standing, hidden),
            Seq::empty(),
        ),
    decreases standing.len(),
{
    if standing.len() > 0 {
        law_hidden_entries_take_no_suggestion(plugins, standing.drop_last(), hidden);
        let before = unhidden(standing.drop_last(), hidden);
        let r = standing.last();
        assert(before.push(r).drop_last() =~= before);
    }
}

/// Without a launch history there are no suggestions, and no heading for
/// them.
pub proof fn law_no_history_no_suggestions(
    plugins: Seq<Box<dyn Plugin>>,
    hidden: Seq<Seq<char>>,
    k: int,
)
    requires
        0 <= k < app::default_sections(plugins, hidden, Seq::empty()).len(),
    ensures
        app::default_sections(plugins, hidden, Seq::empty())[k] == (0int, app::COMMANDS@),
{
    assert(app::leading(Seq::<Rank>::empty()) =~= Seq::empty());
}

/// Two rows are of one entry.
pub open spec fn same_entry(a: Row, b: Row) -> bool {
    a.plugin == b.plugin && a.payload == b.payload
}

/// No entry has two rows.
pub open spec fn no_twins(rows: Seq<Row>) -> bool {
    forall|i: int, j: int|
        0 <= i < j < rows.len() ==> !same_entry(#[trigger] rows[i], #[trigger] rows[j])
}

/// No entry stands in the launch history twice.
pub open spec fn ranked_once(standing: Seq<Rank>) -> bool {
    forall|i: int, j: int|
        0 <= i < j < standing.len() ==> !((#[trigger] standing[i]).plugin == (
        #[trigger] standing[j]).plugin && standing[i].payload == standing[j].payload)
}

proof fn lemma_suggested_once(
    plugins: Seq<Box<dyn Plugin>>,
    standing: Seq<Rank>,
    hidden: Seq<Seq<char>>,
)
    requires
        tidy(plugins),
        ranked_once(standing),
    ensures
        no_twins(app::suggested(plugins, standing, hidden)),
    decreases standing.len(),
{
    if standing.len() > 0 {
        let t = standing.drop_last();
        assert forall|i: int, j: int| 0 <= i < j < t.len() implies !((#[trigger] t[i]).plugin == (
        #[trigger] t[j]).plugin && t[i].payload == t[j].payload) by {
            assert(t[i] == standing[i] && t[j] == standing[j]);
        }
        lemma_suggested_once(plugins, t, hidden);
        lemma_suggested(plugins, t, hidden);
        let r = standing.last();
        lemma_row_of(plugins, r.plugin, r.payload);
        let all = app::suggested(plugins, standing, hidden);
        let before = app::suggested(plugins, t, hidden);
        assert forall|i: int, j: int| 0 <= i < j < all.len() implies !same_entry(
            #[trigger] all[i],
            #[trigger] all[j],
        ) by {
            assert(all[i] == before[i]);
            if j < before.len() {
                assert(all[j] == before[j]);
            } else {
                assert(ranks_row(t, before[i]));
                let k = choose|k: int|
                    0 <= k < t.len() && (#[trigger] t[k]).plugin == before[i].plugin && t[k].payload
                        == before[i].payload;
                assert(standing[k] == t[k]);
                assert(standing[standing.len() - 1] == r);
            }
        }
    }
}

proof fn lemma_browsed_once(list: Seq<Row>, stock: Seq<Row>, limit: nat)
    requires
        no_twins(list),
    ensures
        no_twins(plugin::browsed(list, stock, limit)),
    decreases stock.len(),
{
    if stock.len() > 0 {
        lemma_browsed_once(list, stock.drop_last(), limit);
        let so_far = plugin::browsed(list, stock.drop_last(), limit);
        let all = plugin::browsed(list, stock, limit);
        assert forall|i: int, j: int| 0 <= i < j < all.len() implies !same_entry(
            #[trigger] all[i],
            #[trigger] all[j],
        ) by {
            assert(all[i] == so_far[i]);
            if j < so_far.len() {
                assert(all[j] == so_far[j]);
            }
        }
    }
}

proof fn lemma_padded_once(plugins: Seq<Box<dyn Plugin>>, rows: Seq<Row>)
    requires
        no_twins(rows),
    ensures
        no_twins(app::padded(plugins, rows)),
    decreases plugins.len(),
{
    if plugins.len() > 0 {
        let before = app::padded(plugins.drop_last(), rows);
        lemma_padded_once(plugins.drop_last(), rows);
        if before.len() < app::MAX_RESULTS {
            lemma_browsed_once(
                before,
                plugins.last().stock(),
                (app::MAX_RESULTS - before.len()) as nat,
            );
        }
    }
}

pub proof fn lemma_visible_among(rows: Seq<Row>, hidden: Seq<Seq<char>>)
    ensures
        forall|i: int|
            0 <= i < app::visible(rows, hidden).len() ==> rows.contains(
                #[trigger] app::visible(rows, hidden)[i],
            ),
    decreases rows.len(),
{
    if rows.len() > 0 {
        let t = rows.drop_last();
        lemma_visible_among(t, hidden);
        let all = app::visible(rows, hidden);
        let before = app::visible(t, hidden);
        assert forall|i: int| 0 <= i < all.len() implies rows.contains(#[trigger] all[i]) by {
            if i < before.len() {
                assert(all[i] == before[i]);
                let k = choose|k: int| 0 <= k < t.len() && t[k] == before[i];
                assert(rows[k] == before[i]);
            } else {
                assert(rows[rows.len() - 1] == all[i]);
            }
        }
    }
}

proof fn lemma_visible_once(rows: Seq<Row>, hidden: Seq<Seq<char>>)
    requires
        no_twins(rows),
    ensures
        no_twins(app::visible(rows, hidden)),
    decreases rows.len(),
{
    if rows.len() > 0 {
        let t = rows.drop_last();
        assert forall|i: int, j: int| 0 <= i < j < t.len() implies !same_entry(
            #[trigger] t[i],
            #[trigger] t[j],
        ) by {
            assert(t[i] == rows[i] && t[j] == rows[j]);
        }
        lemma_visible_once(t, hidden);
        lemma_visible_among(t, hidden);
        let all = app::visible(rows, hidden);
        let before = app::visible(t, hidden);
        assert forall|i: int, j: int| 0 <= i < j < all.len() implies !same_entry(
            #[trigger] all[i],
            #[trigger] all[j],
        ) by {
            assert(all[i] == before[i]);
            if j < before.len() {
                assert(all[j] == before[j]);
            } else {
                assert(t.contains(before[i]));
                let k = choose|k: int| 0 <= k < t.len() && t[k] == before[i];
                assert(rows[k] == t[k]);
                assert(rows[rows.len() - 1] == all[j]);
            }
        }
    }
}

/// Nothing stands in the default list twice.
pub proof fn law_the_default_list_has_no_twins(
    plugins: Seq<Box<dyn Plugin>>,
    hidden: Seq<Seq<char>>,
    standing: Seq<Rank>,
)
    requires
        tidy(plugins),
        ranked_once(standing),
    ensures
        no_twins(app::default_rows(plugins, hidden, standing)),
{
    let s = app::leading(standing);
    assert forall|i: int, j: int| 0 <= i < j < s.len() implies !((#[trigger] s[i]).plugin == (
    #[trigger] s[j]).plugin && s[i].payload == s[j].payload) by {
        assert(s[i] == standing[i] && s[j] == standing[j]);
    }
    let first = app::suggested(plugins, s, hidden);
    lemma_suggested_once(plugins, s, hidden);
    lemma_padded_once(plugins, first);
    lemma_visible_once(app::padded(plugins, first), hidden);
}

// ---- selecting and scrolling ----------------------------------------------------------------

/// After the selection moved, the selected row is all in sight; so is its
/// heading, where it has one.
pub proof fn law_the_selected_row_is_in_sight(s: State, by: int)
    requires
        s.results.len() > 0,
        render::scroll_limit(s.results.len() as int, s.sections.len() as int) <= i64::MAX,
    ensures
        ({
            let t = s.moved(by);
            &&& 0 <= t.selected < t.results.len()
            &&& t.scroll <= t.chosen_top()
            &&& t.chosen_bottom() <= t.scroll + render::LIST_VIEWPORT_H * 10
        }),
{
    let n = s.results.len() as int;
    vstd::arithmetic::div_mod::lemma_mod_bound(s.selected + by, n);
    let t = State { selected: app::stepped(s.selected, by, n), ..s };
    render::law_rows_end_within_the_list(t.sections, n, t.selected);
    if t.starts_section(t.selected) {
        let k = choose|k: int|
            0 <= k < t.sections.len() && (#[trigger] t.sections[k]).0 == t.selected;
        render::law_headings_have_room(t.sections, k);
        assert(render::offset_of_row(t.sections, t.selected - 1) >= render::LIST_PAD + (t.selected
            - 1) * render::ROW_H);
        assert(t.chosen_top() >= 0);
    }
}

/// Moving on and moving back come to the same row.
pub proof fn law_moving_back_returns(at: int, by: int, n: int)
    requires
        0 <= at < n,
    ensures
        app::stepped(app::stepped(at, by, n), -by, n) == at,
        0 <= app::stepped(at, by, n) < n,
{
    vstd::arithmetic::div_mod::lemma_mod_bound(at + by, n);
    vstd::arithmetic::div_mod::lemma_add_mod_noop(at + by, -by, n);
    vstd::arithmetic::div_mod::lemma_add_mod_noop((at + by) % n, -by, n);
    vstd::arithmetic::div_mod::lemma_mod_twice(at + by, n);
    vstd::arithmetic::div_mod::lemma_small_mod(at as nat, n as nat);
    assert((at + by) + -by == at);
}

/// Running the query again leaves the selection on a row, if there is one.
pub proof fn law_the_selection_stays_on_a_row(
    s: State,
    plugins: Seq<Box<dyn Plugin>>,
    w: World,
)
    requires
        0 <= s.selected,
    ensures
        ({
            let t = s.requeried(plugins, w);
            &&& 0 <= t.selected <= s.selected
            &&& t.results.len() > 0 ==> t.selected < t.results.len()
        }),
{
}

/// Scrolling never leaves the list.
pub proof fn law_scrolling_stays_within_the_list(s: State, at: int)
    ensures
        0 <= s.scrolled_to(at).scroll <= s.limit(),
{
}

/// No point lies on two rows.
pub proof fn law_one_row_under_a_point(s: State, i: int, j: int, y: int, dpi: int)
    requires
        s.lies_under(i, y, dpi),
        s.lies_under(j, y, dpi),
        0 <= dpi,
    ensures
        i == j,
{
    let (a, b) = if i < j {
        (i, j)
    } else {
        (j, i)
    };
    if i != j {
        render::law_rows_do_not_overlap(s.sections, a, b);
        let top = render::offset_of_row(s.sections, a);
        let next = render::offset_of_row(s.sections, b);
        assert(top * 10 * dpi + render::ROW_H * 10 * dpi <= next * 10 * dpi) by (nonlinear_arith)
            requires
                top + render::ROW_H <= next,
                0 <= dpi,
        ;
    }
}

// ---- hiding -----------------------------------------------------------------------------------

proof fn lemma_without_text(v: Seq<Seq<char>>, k: Seq<char>)
    ensures
        !app::without_text(v, k).contains(k),
        !v.contains(k) ==> app::without_text(v, k) == v,
    decreases v.len(),
{
    if v.len() > 0 {
        let t = v.drop_last();
        lemma_without_text(t, k);
        if !v.contains(k) {
            assert(v[v.len() - 1] == v.last());
            assert forall|i: int| 0 <= i < t.len() implies t[i] != k by {
                assert(t[i] == v[i]);
            }
            assert(t.push(v.last()) =~= v);
        }
    }
}

/// An entry that was hidden is hidden until it is restored, and restoring it
/// undoes hiding it.
pub proof fn law_restoring_undoes_hiding(s: State, k: Seq<char>)
    ensures
        s.with_hidden(k, true).hidden.contains(k),
        !s.with_hidden(k, false).hidden.contains(k),
        !s.hidden.contains(k) ==> s.with_hidden(k, true).with_hidden(k, false) == s,
{
    lemma_without_text(s.hidden, k);
    let more = s.hidden.push(k);
    assert(more[more.len() - 1] == k);
    if !s.hidden.contains(k) {
        assert(more.drop_last() =~= s.hidden);
        assert(s.with_hidden(k, true).with_hidden(k, false).hidden =~= s.hidden);
        assert(s.with_hidden(k, true).with_hidden(k, false) =~= s);
    }
}

pub proof fn lemma_told_apart(v: Seq<Seq<char>>, k: Seq<char>)
    ensures
        app::told_apart(v).contains(k) == v.contains(k),
    decreases v.len(),
{
    if v.len() > 0 {
        let t = v.drop_last();
        lemma_told_apart(t, k);
        lemma_told_apart(t, v.last());
        let before = app::told_apart(t);
        assert(v =~= t.push(v.last()));
        assert(v.contains(k) == (t.contains(k) || v.last() == k)) by {
            if t.contains(k) {
                let i = choose|i: int| 0 <= i < t.len() && t[i] == k;
                assert(v[i] == k);
            }
            if v.last() == k {
                assert(v[v.len() - 1] == k);
            }
        }
        assert(before.push(v.last()).contains(k) == (before.contains(k) || v.last() == k)) by {
            let p = before.push(v.last());
            if before.contains(k) {
                let i = choose|i: int| 0 <= i < before.len() && before[i] == k;
                assert(p[i] == k);
            }
            if v.last() == k {
                assert(p[p.len() - 1] == k);
            }
        }
    }
}

/// What is hidden stays hidden across a restart: the keys that are written to
/// the configuration are the keys that are read from it.
pub proof fn law_hidden_entries_survive_a_restart(
    s: Seq<char>,
    hidden: Seq<Seq<char>>,
    k: Seq<char>,
)
    requires
        forall|i: int| 0 <= i < hidden.len() ==> rewrite::quotable(#[trigger] hidden[i]),
    ensures
        ({
            let values = order::ranked(hidden, order::by_text());
            let new = rewrite::with_list(s, app::HIDDEN@, values);
            let read = app::told_apart(config::values_in(config::settings_of(new), app::HIDDEN@));
            read.contains(k) == hidden.contains(k)
        }),
{
    broadcast use vstd::seq_lib::group_to_multiset_ensures;

    let values = order::ranked(hidden, order::by_text());
    order::law_ranking_orders(hidden, order::by_text());
    assert forall|i: int| 0 <= i < values.len() implies rewrite::quotable(#[trigger] values[i]) by {
        assert(values.contains(values[i]));
        assert(values.to_multiset().count(values[i]) > 0);
        assert(hidden.contains(values[i]));
        let j = choose|j: int| 0 <= j < hidden.len() && hidden[j] == values[i];
        assert(rewrite::quotable(hidden[j]));
    }
    reveal_strlit("hidden");
    assert(rewrite_laws::section_name(app::HIDDEN@));
    rewrite_laws::law_lists_read_back(s, app::HIDDEN@, values);
    lemma_told_apart(values, k);
    assert(values.contains(k) == hidden.contains(k)) by {
        assert(values.to_multiset().count(k) == hidden.to_multiset().count(k));
    }
}

// ---- actions ----------------------------------------------------------------------------------

/// A row that was found goes back to the plugin that found it when it is
/// activated.
pub proof fn law_rows_go_back_to_their_plugin(
    s: State,
    plugins: Seq<Box<dyn Plugin>>,
    k: int,
    q: Seq<char>,
    i: int,
)
    requires
        tidy(plugins),
        told_apart(plugins),
        0 <= k < plugins.len(),
        0 <= i < plugins[k].found(q).len(),
        s.chosen() == Some(plugins[k].found(q)[i]),
    ensures
        s.activation(plugins) == plugins[k].on_activate(plugins[k].found(q)[i]),
{
    let row = plugins[k].found(q)[i];
    assert(plugin::owns_its_rows(&*plugins[k]));
    assert(plugin::all_of(plugins[k].found(q), plugins[k].name()));
    lemma_plugin_at(plugins, row.plugin);
    let at = app::plugin_at(plugins, row.plugin);
    if at < k {
        assert(plugins[at].name() != plugins[k].name());
    }
}

/// Source folders cannot be launched: Enter does nothing on them.
pub proof fn law_source_rows_do_nothing(
    s: State,
    plugins: Seq<Box<dyn Plugin>>,
    p: Place,
    icon: Option<Bitmap>,
)
    requires
        forall|i: int| 0 <= i < plugins.len() ==> (#[trigger] plugins[i]).name() != app::SHELL@,
        s.chosen() == Some(app::source_row(p, icon)),
    ensures
        s.activation(plugins) == Answer::just(Outcome::Done),
{
    lemma_plugin_at(plugins, app::SHELL@);
}

/// Every row has an actions panel, and the panel is never empty: the action of
/// the listing is always there.
pub proof fn law_every_row_has_an_action(
    plugins: Seq<Box<dyn Plugin>>,
    row: Row,
    listing: Listing,
)
    ensures
        app::offers_for(plugins, row, listing).len() > 0,
        app::offers_for(plugins, row, listing).last() == app::shell_offer(listing),
{
}

/// Only a launch is remembered.
pub proof fn law_only_launches_are_remembered(o: Outcome, chosen: Option<Row>)
    ensures
        app::remembered(o, chosen) is Some ==> o is Close,
        app::remembered(o, chosen) is Some ==> app::shown_after(o) is Hide,
{
}

/// The launch history gives every entry one standing.
pub proof fn law_history_ranks_entries_once(
    v: Seq<Launch>,
    faded: Seq<u32>,
    bonuses: Seq<u8>,
)
    requires
        frecency::unique(v),
    ensures
        ranked_once(
            frecency::best(v, faded, bonuses).map_values(|w: Weighed| frecency::rank_of(w)),
        ),
{
    broadcast use vstd::seq_lib::group_to_multiset_ensures;

    let s = frecency::weighed(v, faded, bonuses);
    let r = frecency::best(v, faded, bonuses);
    order::law_ranking_orders(s, frecency::by_weight());
    assert(s.no_duplicates()) by {
        assert forall|i: int, j: int| 0 <= i < s.len() && 0 <= j < s.len() && i != j implies s[i]
            != s[j] by {
            let (a, b) = if i < j {
                (i, j)
            } else {
                (j, i)
            };
            assert(!frecency::is_of(v[a], v[b].plugin, v[b].payload));
        }
    }
    s.lemma_multiset_has_no_duplicates();
    r.lemma_multiset_has_no_duplicates_conv();
    let out = r.map_values(|w: Weighed| frecency::rank_of(w));
    assert forall|i: int, j: int| 0 <= i < j < out.len() implies !((#[trigger] out[i]).plugin == (
    #[trigger] out[j]).plugin && out[i].payload == out[j].payload) by {
        assert(r.contains(r[i]) && r.contains(r[j]));
        assert(r.to_multiset().count(r[i]) > 0 && r.to_multiset().count(r[j]) > 0);
        assert(s.contains(r[i]) && s.contains(r[j]));
        let a = choose|a: int| 0 <= a < s.len() && s[a] == r[i];
        let b = choose|b: int| 0 <= b < s.len() && s[b] == r[j];
        assert(r[i] != r[j]);
        if a < b {
            assert(!frecency::is_of(v[a], v[b].plugin, v[b].payload));
        } else {
            assert(!frecency::is_of(v[b], v[a].plugin, v[a].payload));
        }
    }
}

/// What past use adds never outweighs an alias that was typed out.
pub proof fn law_an_alias_outweighs_any_bonus(q: Seq<char>, name: Seq<char>, bonus: u8)
    requires
        fuzzy::name_score(q, name) matches Some(s) ==> s + search::ALIAS_BOOST <= i32::MAX,
    ensures
        ({
            let hit = search::app_score(q, name, Some(fuzzy::folded(q)));
            let plain = search::app_score(q, name, None);
            &&& hit is Some
            &&& plain is Some ==> hit->0 > plain->0 + bonus
            &&& plain is None ==> hit->0 > bonus
        }),
{
}

// ---- what is drawn ------------------------------------------------------------------------------

proof fn lemma_rows_hold(s: State, k: int, i: int, x: Shape)
    requires
        0 <= i < k,
        scene::row_shapes(s, i).contains(x),
    ensures
        scene::rows_shapes(s, k).contains(x),
    decreases k,
{
    let all = scene::rows_shapes(s, k);
    let before = scene::rows_shapes(s, k - 1);
    let last = scene::row_shapes(s, k - 1);
    if i < k - 1 {
        lemma_rows_hold(s, k - 1, i, x);
        let j = choose|j: int| 0 <= j < before.len() && before[j] == x;
        assert(all[j] == x);
    } else {
        let j = choose|j: int| 0 <= j < last.len() && last[j] == x;
        assert(all[before.len() + j] == x);
    }
}

proof fn lemma_holds_in_the_middle(a: Seq<Shape>, b: Seq<Shape>, c: Seq<Shape>, x: Shape)
    requires
        b.contains(x),
    ensures
        (a + b + c).contains(x),
{
    let j = choose|j: int| 0 <= j < b.len() && b[j] == x;
    assert((a + b + c)[a.len() + j] == x);
}

/// After the selection moved, the frame shows the highlight of the selected
/// row, all of it within the list.
pub proof fn law_the_highlight_is_drawn(s: State, by: int, translucent: bool)
    requires
        s.results.len() > 0,
        render::scroll_limit(s.results.len() as int, s.sections.len() as int) <= i64::MAX,
    ensures
        ({
            let t = s.moved(by);
            let y = render::row_top(t.sections, t.selected, t.scroll);
            &&& scene::frame_of(t, translucent).contains(scene::mark_at(y))
            &&& render::LIST_TOP * 10 <= y
            &&& y + render::ROW_H * 10 <= (render::LIST_TOP + render::LIST_VIEWPORT_H) * 10
        }),
{
    law_the_selected_row_is_in_sight(s, by);
    let t = s.moved(by);
    let i = t.selected;
    let y = render::row_top(t.sections, i, t.scroll);
    let x = scene::mark_at(y);
    let row = scene::row_shapes(t, i);
    assert(row[0] == x);
    let rows = scene::rows_shapes(t, t.results.len() as int);
    lemma_rows_hold(t, t.results.len() as int, i, x);
    let list = scene::list_shapes(t);
    let heads = scene::headings_shapes(t, t.sections.len() as int);
    let first = list.take(2) + heads;
    assert(list =~= first + rows + seq![Shape::Unclip]);
    lemma_holds_in_the_middle(first, rows, seq![Shape::Unclip], x);
    let frame = scene::frame_of(t, translucent);
    let front = seq![frame[0]] + scene::input_shapes(t);
    let back = scene::scrollbar_shapes(t) + scene::bar_shapes() + scene::panel_shapes(t.mode)
        + seq![Shape::Rim { inset: 5, radius: 80 }];
    assert(frame =~= front + list + back);
    lemma_holds_in_the_middle(front, list, back, x);
}

} // verus!
