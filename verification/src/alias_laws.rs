//! What typing an alias does: the application it names comes first.
use vstd::prelude::*;
use vstd::string::*;

use crate::app::{self, Rank, State, World};
use crate::app_laws;
use crate::appindex::Application;
use crate::fuzzy;
use crate::order;
use crate::plugin::{Bitmap, Plugin, Row};
use crate::plugins::commands::{self, Commands, Listed};
use crate::plugins::quicklinks::{self, Link, Quicklinks};
use crate::plugins::search::{self, Search};
use crate::rewrite;
use crate::text;

verus! {

/// Whether the query is what the row goes by.
pub open spec fn goes_by(row: Row, q: Seq<char>) -> bool {
    row.badge == Some(fuzzy::folded(q))
}

/// The most a query can score without being an alias.
pub open spec fn best_match(q: Seq<char>) -> int {
    fuzzy::BONUS_WORD_START * q.len()
}

/// The least an alias scores when it is typed out.
pub open spec fn alias_worth(row: Row) -> int {
    search::ALIAS_BOOST - fuzzy::PENALTY_LEAD_CAP - fuzzy::PENALTY_LENGTH_CAP - row.title.len()
}

/// Rows that go by the query score like an alias, the others like a match.
pub open spec fn weighs_aliases(rows: Seq<Row>, q: Seq<char>) -> bool {
    forall|i: int|
        0 <= i < rows.len() ==> i32::MIN <= rows[i].score <= i32::MAX && if goes_by(
            #[trigger] rows[i],
            q,
        ) {
            rows[i].score >= alias_worth(rows[i])
        } else {
            rows[i].score <= best_match(q)
        }
}

proof fn lemma_app_rows(apps: Seq<Application>, aliases: Seq<(Seq<char>, Seq<char>)>, q: Seq<char>)
    ensures
        weighs_aliases(search::app_rows(apps, aliases, q), q),
    decreases apps.len(),
{
    if apps.len() > 0 {
        lemma_app_rows(apps.drop_last(), aliases, q);
        fuzzy::law_name_scores_are_bounded(q, apps.last().name);
    }
}

proof fn lemma_link_rows(links: Seq<Link>, q: Seq<char>)
    ensures
        weighs_aliases(quicklinks::link_rows(links, q), q),
    decreases links.len(),
{
    if links.len() > 0 {
        lemma_link_rows(links.drop_last(), q);
        fuzzy::law_name_scores_are_bounded(q, links.last().name);
    }
}

proof fn lemma_command_rows(cs: Seq<Listed>, q: Seq<char>, icon: Option<Bitmap>)
    ensures
        weighs_aliases(commands::command_rows(cs, q, icon), q),
    decreases cs.len(),
{
    if cs.len() > 0 {
        lemma_command_rows(cs.drop_last(), q, icon);
        fuzzy::law_name_scores_are_bounded(q, cs.last().label);
        fuzzy::law_name_scores_are_bounded(q, commands::haystack(cs.last()));
    }
}

/// An application scores like an alias exactly when its alias was typed.
pub proof fn law_applications_weigh_aliases(p: &Search, q: Seq<char>)
    ensures
        weighs_aliases(p.found(q), q),
{
    lemma_app_rows(p@.apps, p@.aliases, q);
}

/// A quicklink scores what matching gives it.
pub proof fn law_quicklinks_weigh_no_alias(p: &Quicklinks, q: Seq<char>)
    ensures
        weighs_aliases(p.found(q), q),
{
    lemma_link_rows(p@.links, q);
    fuzzy::law_name_scores_are_bounded(q, quicklinks::CREATE_LABEL@);
}

/// A command scores what matching gives it.
pub proof fn law_commands_weigh_no_alias(p: &Commands, q: Seq<char>)
    ensures
        weighs_aliases(p.found(q), q),
{
    lemma_command_rows(commands::listed(), q, p.icon());
}

proof fn lemma_app_is_found(
    apps: Seq<Application>,
    aliases: Seq<(Seq<char>, Seq<char>)>,
    q: Seq<char>,
    k: int,
) -> (at: int)
    requires
        0 <= k < apps.len(),
        search::alias_in(aliases, apps[k].app_id) == Some(fuzzy::folded(q)),
    ensures
        0 <= at < search::app_rows(apps, aliases, q).len(),
        search::app_rows(apps, aliases, q)[at].payload == apps[k].app_id,
        goes_by(search::app_rows(apps, aliases, q)[at], q),
    decreases apps.len(),
{
    let before = search::app_rows(apps.drop_last(), aliases, q);
    if k < apps.len() - 1 {
        let at = lemma_app_is_found(apps.drop_last(), aliases, q, k);
        assert(search::app_rows(apps, aliases, q)[at] == before[at]);
        at
    } else {
        before.len() as int
    }
}

/// An alias typed out finds its application, whatever the application is
/// called.
pub proof fn law_an_alias_finds_its_application(p: &Search, q: Seq<char>, k: int)
    requires
        0 <= k < p@.apps.len(),
        search::alias_in(p@.aliases, p@.apps[k].app_id) == Some(fuzzy::folded(q)),
    ensures
        exists|i: int|
            0 <= i < p.found(q).len() && (#[trigger] p.found(q)[i]).payload == p@.apps[k].app_id
                && goes_by(p.found(q)[i], q),
{
    let at = lemma_app_is_found(p@.apps, p@.aliases, q, k);
    assert(p.found(q)[at].payload == p@.apps[k].app_id);
}

/// Setting an alias and typing it finds the application it was set for.
pub proof fn law_a_set_alias_finds_its_application(
    before: &Search,
    after: &Search,
    row: Row,
    text: Seq<char>,
    k: int,
)
    requires
        after.memory() == before.told("set_alias"@, row, text),
        rewrite::as_key(text::trimmed(text)).len() > 0,
        0 <= k < before@.apps.len(),
        before@.apps[k].app_id == row.payload,
    ensures
        exists|i: int|
            0 <= i < after.found(rewrite::as_key(text::trimmed(text))).len() && (
            #[trigger] after.found(rewrite::as_key(text::trimmed(text)))[i]).payload == row.payload
                && goes_by(
                after.found(rewrite::as_key(text::trimmed(text)))[i],
                rewrite::as_key(text::trimmed(text)),
            ),
{
    let alias = rewrite::as_key(text::trimmed(text));
    search::law_aliases_are_found(before@.aliases, alias, row.payload);
    rewrite::law_sanitized_keys_are_bare(text::trimmed(text));
    assert(fuzzy::folded(alias) =~= alias) by {
        assert forall|i: int| 0 <= i < alias.len() implies text::lower_char(alias[i]) == alias[i] by {
            assert(rewrite::key_char(alias[i]));
        }
    }
    law_an_alias_finds_its_application(after, alias, k);
}

/// Past use adds something from 0 to `most` to every entry.
pub open spec fn modest(standing: Seq<Rank>, most: int) -> bool {
    forall|i: int| 0 <= i < standing.len() ==> 0 <= (#[trigger] standing[i]).bonus <= most
}

proof fn lemma_bonus(standing: Seq<Rank>, most: int, plugin: Seq<char>, payload: Seq<char>)
    requires
        0 <= most,
        modest(standing, most),
    ensures
        0 <= app::bonus_of(standing, plugin, payload) <= most,
    decreases standing.len(),
{
    if standing.len() > 0 {
        let rest = standing.drop_first();
        assert forall|i: int| 0 <= i < rest.len() implies 0 <= (#[trigger] rest[i]).bonus
            <= most by {
            assert(rest[i] == standing[i + 1]);
        }
        lemma_bonus(rest, most, plugin, payload);
        assert(standing[0].bonus <= most);
    }
}

proof fn lemma_all_found(plugins: Seq<Box<dyn Plugin>>, q: Seq<char>)
    requires
        forall|i: int|
            0 <= i < plugins.len() ==> weighs_aliases((#[trigger] plugins[i]).found(q), q),
    ensures
        weighs_aliases(app::all_found(plugins, q), q),
    decreases plugins.len(),
{
    if plugins.len() > 0 {
        let t = plugins.drop_last();
        assert forall|i: int| 0 <= i < t.len() implies weighs_aliases(
            (#[trigger] t[i]).found(q),
            q,
        ) by {
            assert(t[i] == plugins[i]);
        }
        lemma_all_found(t, q);
        let all = app::all_found(plugins, q);
        let before = app::all_found(t, q);
        let last = plugins[plugins.len() - 1].found(q);
        assert forall|i: int| 0 <= i < all.len() implies i32::MIN <= all[i].score <= i32::MAX
            && if goes_by(#[trigger] all[i], q) {
            all[i].score >= alias_worth(all[i])
        } else {
            all[i].score <= best_match(q)
        } by {
            if i < before.len() {
                assert(all[i] == before[i]);
            } else {
                assert(all[i] == last[i - before.len()]);
            }
        }
    }
}

/// An alias typed out comes first: nothing that merely matches, however well
/// and however often used, stands above the entries that go by it. A query so
/// long that matching alone could score like an alias is left out.
pub proof fn law_an_alias_comes_first(
    s: State,
    plugins: Seq<Box<dyn Plugin>>,
    w: World,
    row: Row,
    most: int,
)
    requires
        s.listing_now() is Normal,
        s.query.text.len() > 0,
        forall|i: int|
            0 <= i < plugins.len() ==> weighs_aliases(
                (#[trigger] plugins[i]).found(s.query.text),
                s.query.text,
            ),
        0 <= most,
        modest(w.standing, most),
        app::visible(app::all_found(plugins, s.query.text), s.hidden).contains(row),
        goes_by(row, s.query.text),
        best_match(s.query.text) + most < alias_worth(row),
    ensures
        s.rows_now(plugins, w).len() > 0,
        goes_by(s.rows_now(plugins, w)[0], s.query.text),
        s.rows_now(plugins, w)[0].score >= row.score,
        exists|r: Row|
            app::visible(app::all_found(plugins, s.query.text), s.hidden).contains(r)
                && s.rows_now(plugins, w)[0] == #[trigger] app::boosted(r, w.standing),
{
    broadcast use vstd::seq_lib::group_to_multiset_ensures;

    let q = s.query.text;
    let all = app::all_found(plugins, q);
    lemma_all_found(plugins, q);
    let found = app::visible(all, s.hidden);
    app_laws::lemma_visible_among(all, s.hidden);
    let boosted = app::all_boosted(found, w.standing);
    let key = app::by_score();
    let ranked = order::ranked(boosted, key);
    order::law_ranking_orders(boosted, key);

    let k = choose|k: int| 0 <= k < found.len() && found[k] == row;
    let mine = boosted[k];
    assert(mine == app::boosted(row, w.standing));
    lemma_bonus(w.standing, most, row.plugin, row.payload);
    assert(all.contains(found[k]));
    assert(mine.score >= row.score >= alias_worth(row));
    assert(boosted.contains(mine));
    assert(boosted.to_multiset().count(mine) > 0);
    assert(ranked.contains(mine));
    let at = choose|at: int| 0 <= at < ranked.len() && ranked[at] == mine;

    let first = ranked[0];
    assert(s.rows_now(plugins, w)[0] == first);
    assert(ranked.contains(first));
    assert(ranked.to_multiset().count(first) > 0);
    assert(boosted.contains(first));
    let j = choose|j: int| 0 <= j < boosted.len() && boosted[j] == first;
    assert(first == app::boosted(found[j], w.standing));
    assert(found.contains(found[j]));
    assert(all.contains(found[j]));
    lemma_bonus(w.standing, most, found[j].plugin, found[j].payload);
    assert(first.score >= mine.score) by {
        if at > 0 {
            assert(!order::before(key(ranked[at]), key(ranked[0])));
        }
    }
}

} // verus!
