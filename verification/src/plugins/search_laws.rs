//! What holds of application search: what a query finds, what is offered for
//! an application, and that what is kept in mind is what a reload would read.
use vstd::prelude::*;
use vstd::string::*;

use crate::appindex::{Application, Catalogue};
use crate::config::{self, Setting};
use crate::fuzzy;
use crate::pieces;
use crate::plugin::{Answer, Deed, Disk, Offer, Outcome, Plugin, Row};
use crate::plugins::search::{self, Search};
use crate::rewrite;
use crate::rewrite_laws;
use crate::text;

verus! {

// ---- aliases -----------------------------------------------------------------------------------

/// `alias` is the first of the aliases that stands for `target`.
pub open spec fn goes_by(
    aliases: Seq<(Seq<char>, Seq<char>)>,
    target: Seq<char>,
    alias: Seq<char>,
) -> bool {
    exists|i: int|
        0 <= i < aliases.len() && #[trigger] aliases[i] == (alias, target) && forall|j: int|
            0 <= j < i ==> (#[trigger] aliases[j]).1 != target
}

/// No alias stands for `target`.
pub open spec fn has_no_alias(aliases: Seq<(Seq<char>, Seq<char>)>, target: Seq<char>) -> bool {
    forall|i: int| 0 <= i < aliases.len() ==> (#[trigger] aliases[i]).1 != target
}

proof fn lemma_alias_in(aliases: Seq<(Seq<char>, Seq<char>)>, target: Seq<char>)
    ensures
        search::alias_in(aliases, target) is None <==> has_no_alias(aliases, target),
        forall|a: Seq<char>|
            search::alias_in(aliases, target) == Some(a) <==> #[trigger] goes_by(
                aliases,
                target,
                a,
            ),
    decreases aliases.len(),
{
    if aliases.len() > 0 {
        let rest = aliases.drop_first();
        lemma_alias_in(rest, target);
        if aliases[0].1 == target {
            assert forall|a: Seq<char>| search::alias_in(aliases, target) == Some(
                a,
            ) <==> #[trigger] goes_by(aliases, target, a) by {
                if aliases[0].0 == a {
                    assert(aliases[0] == (a, target));
                }
            }
        } else {
            assert(has_no_alias(rest, target) <==> has_no_alias(aliases, target)) by {
                if has_no_alias(rest, target) {
                    assert forall|i: int| 0 <= i < aliases.len() implies (
                    #[trigger] aliases[i]).1 != target by {
                        if i > 0 {
                            assert(rest[i - 1] == aliases[i]);
                        }
                    }
                } else {
                    let i = choose|i: int| 0 <= i < rest.len() && (#[trigger] rest[i]).1 == target;
                    assert(aliases[i + 1].1 == target);
                }
            }
            assert forall|a: Seq<char>| search::alias_in(aliases, target) == Some(
                a,
            ) <==> #[trigger] goes_by(aliases, target, a) by {
                assert(goes_by(rest, target, a) == goes_by(aliases, target, a)) by {
                    if goes_by(rest, target, a) {
                        let i = choose|i: int|
                            0 <= i < rest.len() && #[trigger] rest[i] == (a, target)
                                && forall|j: int| 0 <= j < i ==> (#[trigger] rest[j]).1 != target;
                        assert(aliases[i + 1] == (a, target));
                        assert forall|j: int| 0 <= j < i + 1 implies (#[trigger] aliases[j]).1
                            != target by {
                            if j > 0 {
                                assert(rest[j - 1] == aliases[j]);
                            }
                        }
                    }
                    if goes_by(aliases, target, a) {
                        let i = choose|i: int|
                            0 <= i < aliases.len() && #[trigger] aliases[i] == (a, target)
                                && forall|j: int|
                                0 <= j < i ==> (#[trigger] aliases[j]).1 != target;
                        assert(rest[i - 1] == (a, target));
                        assert forall|j: int| 0 <= j < i - 1 implies (#[trigger] rest[j]).1
                            != target by {
                            assert(rest[j] == aliases[j + 1]);
                        }
                    }
                }
            }
        }
    }
}

// ---- what a query finds ----------------------------------------------------------------------

/// Positions of a sequence of length `n`, each once and in order.
pub open spec fn ascending(at: Seq<int>, n: int) -> bool {
    &&& forall|i: int| 0 <= i < at.len() ==> 0 <= #[trigger] at[i] < n
    &&& forall|i: int, j: int| 0 <= i < j < at.len() ==> #[trigger] at[i] < #[trigger] at[j]
}

/// A row shows an application: its name, its icon, and the alias it goes by.
pub open spec fn shows(row: Row, app: Application, aliases: Seq<(Seq<char>, Seq<char>)>) -> bool {
    &&& row.plugin == "search"@
    &&& row.payload == app.app_id
    &&& row.title == app.name
    &&& row.icon == app.icon
    &&& row.subtitle == "Application"@
    &&& row.category.len() == 0
    &&& match row.badge {
        Some(a) => goes_by(aliases, app.app_id, a),
        None => has_no_alias(aliases, app.app_id),
    }
}

/// The query can be placed on the name, in any case.
pub open spec fn named(q: Seq<char>, name: Seq<char>) -> bool {
    fuzzy::matches_somewhere(fuzzy::folded(q), fuzzy::folded(name))
}

/// `score` is what the best placement of the query on the name is worth.
pub open spec fn worth(q: Seq<char>, name: Seq<char>, score: int) -> bool {
    exists|x: int|
        score == fuzzy::told(x) && #[trigger] fuzzy::is_best_score(
            fuzzy::folded(q),
            fuzzy::folded(name),
            fuzzy::bonuses_of(name),
            x,
        )
}

pub proof fn lemma_name_score(q: Seq<char>, name: Seq<char>)
    ensures
        fuzzy::name_score(q, name) is Some <==> named(q, name),
        fuzzy::name_score(q, name) matches Some(s) ==> worth(q, name, s as int),
{
    let (f, t, b) = (fuzzy::folded(q), fuzzy::folded(name), fuzzy::bonuses_of(name));
    fuzzy::law_there_is_a_score(f, t, b);
}

proof fn lemma_app_rows(
    apps: Seq<Application>,
    aliases: Seq<(Seq<char>, Seq<char>)>,
    q: Seq<char>,
) -> (at: Seq<int>)
    ensures
        finds(search::app_rows(apps, aliases, q), at, apps, aliases, q),
    decreases apps.len(),
{
    let rows = search::app_rows(apps, aliases, q);
    if apps.len() == 0 {
        Seq::empty()
    } else {
        let front = apps.drop_last();
        let before = search::app_rows(front, aliases, q);
        let so_far = lemma_app_rows(front, aliases, q);
        let app = apps.last();
        let n = front.len() as int;
        lemma_alias_in(aliases, app.app_id);
        lemma_name_score(q, app.name);
        let alias = search::alias_in(aliases, app.app_id);
        let hit = alias == Some(fuzzy::folded(q));
        assert(hit <==> goes_by(aliases, app.app_id, fuzzy::folded(q)));
        assert forall|k: int| 0 <= k < n implies #[trigger] apps[k] == front[k] by {}
        match search::app_score(q, app.name, alias) {
            Some(score) => {
                let at = so_far.push(n);
                assert(rows == before.push(search::app_row(app, alias, score)));
                assert(""@.len() == 0) by {
                    reveal_strlit("");
                }
                assert forall|i: int| 0 <= i < rows.len() implies shows(
                    #[trigger] rows[i],
                    apps[at[i]],
                    aliases,
                ) && scores(rows[i], apps[at[i]], aliases, q) by {
                    if i < before.len() {
                        assert(rows[i] == before[i]);
                        assert(apps[at[i]] == front[so_far[i]]);
                    }
                }
                assert forall|k: int| #[trigger] at.contains(k) <==> 0 <= k < apps.len() && reached(
                    q,
                    apps[k],
                    aliases,
                ) by {
                    if at.contains(k) {
                        let i = choose|i: int| 0 <= i < at.len() && at[i] == k;
                        if i < so_far.len() {
                            assert(so_far[i] == k);
                            assert(so_far.contains(k));
                        }
                    }
                    if 0 <= k < n && reached(q, apps[k], aliases) {
                        assert(so_far.contains(k));
                        let i = choose|i: int| 0 <= i < so_far.len() && so_far[i] == k;
                        assert(at[i] == k);
                    }
                    if k == n {
                        assert(at[so_far.len() as int] == k);
                    }
                }
                at
            },
            None => {
                assert(rows == before);
                assert forall|i: int| 0 <= i < rows.len() implies shows(
                    #[trigger] rows[i],
                    apps[so_far[i]],
                    aliases,
                ) && scores(rows[i], apps[so_far[i]], aliases, q) by {
                    assert(apps[so_far[i]] == front[so_far[i]]);
                }
                assert forall|k: int| #[trigger]
                    so_far.contains(k) <==> 0 <= k < apps.len() && reached(
                    q,
                    apps[k],
                    aliases,
                ) by {
                    assert(!reached(q, app, aliases));
                }
                so_far
            },
        }
    }
}

/// A query reaches an application by its name, or by its alias typed whole.
pub open spec fn reached(
    q: Seq<char>,
    app: Application,
    aliases: Seq<(Seq<char>, Seq<char>)>,
) -> bool {
    named(q, app.name) || goes_by(aliases, app.app_id, fuzzy::folded(q))
}

/// A row's score: what the name is worth, and two thousand for the alias.
pub open spec fn scores(
    row: Row,
    app: Application,
    aliases: Seq<(Seq<char>, Seq<char>)>,
    q: Seq<char>,
) -> bool {
    let extra: int = if goes_by(aliases, app.app_id, fuzzy::folded(q)) {
        2000
    } else {
        0
    };
    if named(q, app.name) {
        exists|s: int| #[trigger] worth(q, app.name, s) && row.score == fuzzy::told(s + extra)
    } else {
        row.score == extra
    }
}

/// `rows` are those of the applications at the positions `at`: all that the
/// query reaches and no others, in the order of the index.
pub open spec fn finds(
    rows: Seq<Row>,
    at: Seq<int>,
    apps: Seq<Application>,
    aliases: Seq<(Seq<char>, Seq<char>)>,
    q: Seq<char>,
) -> bool {
    &&& at.len() == rows.len()
    &&& ascending(at, apps.len() as int)
    &&& forall|i: int|
        0 <= i < rows.len() ==> shows(#[trigger] rows[i], apps[at[i]], aliases) && scores(
            rows[i],
            apps[at[i]],
            aliases,
            q,
        )
    &&& forall|k: int| #[trigger]
        at.contains(k) <==> 0 <= k < apps.len() && reached(q, apps[k], aliases)
}

/// Search finds an application exactly if the query can be placed on its name
/// or is its alias, whatever kind of application it is: one row each, in the
/// order of the index, worth what its name is worth and two thousand more for
/// the alias.
pub proof fn law_search_finds_what_matches(p: &Search, q: Seq<char>) -> (at: Seq<int>)
    ensures
        finds(p.found(q), at, p@.apps, p@.aliases, q),
{
    lemma_app_rows(p@.apps, p@.aliases, q)
}

/// Every application whose name the query can be placed on has a row under its
/// id, with or without an alias, and a row stands there only for an
/// application that matches by its name or by its alias.
pub proof fn law_every_match_has_a_row(p: &Search, q: Seq<char>)
    ensures
        forall|k: int|
            0 <= k < p@.apps.len() && fuzzy::matches_somewhere(
                fuzzy::folded(q),
                fuzzy::folded(#[trigger] p@.apps[k].name),
            ) ==> exists|i: int|
                0 <= i < p.found(q).len() && (#[trigger] p.found(q)[i]).payload
                    == p@.apps[k].app_id && p.found(q)[i].title == p@.apps[k].name,
        forall|i: int|
            0 <= i < p.found(q).len() ==> exists|k: int|
                0 <= k < p@.apps.len() && (#[trigger] p.found(q)[i]).payload == (
                #[trigger] p@.apps[k]).app_id && p.found(q)[i].title == p@.apps[k].name && (
                fuzzy::matches_somewhere(fuzzy::folded(q), fuzzy::folded(p@.apps[k].name))
                    || goes_by(p@.aliases, p@.apps[k].app_id, fuzzy::folded(q))),
{
    let at = law_search_finds_what_matches(p, q);
    let rows = p.found(q);
    assert forall|k: int|
        0 <= k < p@.apps.len() && fuzzy::matches_somewhere(
            fuzzy::folded(q),
            fuzzy::folded(#[trigger] p@.apps[k].name),
        ) implies exists|i: int|
        0 <= i < rows.len() && (#[trigger] rows[i]).payload == p@.apps[k].app_id && rows[i].title
            == p@.apps[k].name by {
        assert(reached(q, p@.apps[k], p@.aliases));
        assert(at.contains(k));
        let i = choose|i: int| 0 <= i < at.len() && at[i] == k;
        assert(shows(rows[i], p@.apps[at[i]], p@.aliases));
    }
    assert forall|i: int| 0 <= i < rows.len() implies exists|k: int|
        0 <= k < p@.apps.len() && (#[trigger] rows[i]).payload == (#[trigger] p@.apps[k]).app_id
            && rows[i].title == p@.apps[k].name && (fuzzy::matches_somewhere(
            fuzzy::folded(q),
            fuzzy::folded(p@.apps[k].name),
        ) || goes_by(p@.aliases, p@.apps[k].app_id, fuzzy::folded(q))) by {
        assert(shows(rows[i], p@.apps[at[i]], p@.aliases));
        assert(at.contains(at[i]));
    }
}

// ---- listing -----------------------------------------------------------------------------------

/// Search lists every application of the index, in its order, and makes the
/// row of an id exactly if the index has it: the first that does.
pub proof fn law_every_application_is_listed(p: &Search, app_id: Seq<char>)
    ensures
        p.stock().len() == p@.apps.len(),
        forall|k: int|
            0 <= k < p@.apps.len() ==> shows(#[trigger] p.stock()[k], p@.apps[k], p@.aliases)
                && p.stock()[k].score == 0,
        match p.made(app_id) {
            Some(row) => exists|k: int|
                0 <= k < p@.apps.len() && (#[trigger] p@.apps[k]).app_id == app_id && shows(
                    row,
                    p@.apps[k],
                    p@.aliases,
                ) && row.score == 0 && forall|j: int|
                    0 <= j < k ==> (#[trigger] p@.apps[j]).app_id != app_id,
            None => forall|k: int| 0 <= k < p@.apps.len() ==> (#[trigger] p@.apps[k]).app_id != app_id,
        },
{
    reveal_strlit("");
    assert forall|k: int| 0 <= k < p@.apps.len() implies shows(
        #[trigger] p.stock()[k],
        p@.apps[k],
        p@.aliases,
    ) by {
        lemma_alias_in(p@.aliases, p@.apps[k].app_id);
    }
    pieces::lemma_first_where(p@.apps, |a: Application| a.app_id == app_id);
    let k = search::app_at(p@.apps, app_id);
    if k < p@.apps.len() {
        lemma_alias_in(p@.aliases, p@.apps[k].app_id);
        assert(p@.apps[k].app_id == app_id);
    }
}

/// A new index takes the place of the old one and leaves the aliases; a reload
/// takes the aliases of the configuration and leaves the index.
pub proof fn law_indexes_and_aliases_are_apart(p: &Search, index: Catalogue, disk: Disk)
    ensures
        p.indexed(index).apps == index.apps,
        p.indexed(index).aliases == p@.aliases,
        p.reloaded(disk).apps == p@.apps,
        p.reloaded(disk).aliases == config::entries_in(disk.config@, "aliases"@),
        p.memory().apps == p@.apps,
        p.memory().aliases == p@.aliases,
        p.name() == "search"@,
{
}

// ---- what is offered ---------------------------------------------------------------------------

/// The ids of an actions panel.
pub open spec fn ids(offers: Seq<Offer>) -> Seq<Seq<char>> {
    offers.map_values(|o: Offer| o.id)
}

/// An action of this id is offered.
pub open spec fn offers_action(offers: Seq<Offer>, id: Seq<char>) -> bool {
    exists|i: int| 0 <= i < offers.len() && (#[trigger] offers[i]).id == id
}

/// Words that end in a label.
pub open spec fn says(label: Seq<char>, word: Seq<char>) -> bool {
    exists|i: int|
        0 <= i <= label.len() - word.len() && #[trigger] label.subrange(i, i + word.len()) == word
}

pub proof fn lemma_says(front: Seq<char>, word: Seq<char>, back: Seq<char>)
    ensures
        says(front + word + back, word),
        says(front + word, word),
{
    let (a, b) = (front + word + back, front + word);
    let i = front.len() as int;
    assert(a.subrange(i, i + word.len()) =~= word);
    assert(b.subrange(i, i + word.len()) =~= word);
}

proof fn lemma_action_ids()
    ensures
        "open"@.len() == 4,
        "run_as_admin"@.len() == 12,
        "reveal"@.len() == 6,
        "set_alias"@.len() == 9,
        "remove_alias"@.len() == 12,
        "run_as_admin"@ != "remove_alias"@,
{
    reveal_strlit("open");
    reveal_strlit("run_as_admin");
    reveal_strlit("reveal");
    reveal_strlit("set_alias");
    reveal_strlit("remove_alias");
    assert("run_as_admin"@[1] != "remove_alias"@[1]);
}

/// An application can be opened, shown in the file manager and given an alias
/// in any case; run as administrator unless it is packaged, which its id shows
/// by a `!`; and have its alias taken back, which the panel names, exactly if
/// it has one. Opening comes first, and each action is offered once.
pub proof fn law_what_is_offered_for_an_application(p: &Search, row: Row)
    ensures
        p.offered(row)[0].id == "open"@,
        offers_action(p.offered(row), "open"@),
        offers_action(p.offered(row), "reveal"@),
        offers_action(p.offered(row), "set_alias"@),
        offers_action(p.offered(row), "run_as_admin"@) <==> !row.payload.contains('!'),
        offers_action(p.offered(row), "remove_alias"@) <==> !has_no_alias(p@.aliases, row.payload),
        forall|a: Seq<char>, i: int|
            #![trigger goes_by(p@.aliases, row.payload, a), p.offered(row)[i]]
            goes_by(p@.aliases, row.payload, a) && 0 <= i < p.offered(row).len() && p.offered(
                row,
            )[i].id == "remove_alias"@ ==> says(p.offered(row)[i].label, a),
        forall|i: int, j: int|
            0 <= i < j < p.offered(row).len() ==> (#[trigger] p.offered(row)[i]).id != (
            #[trigger] p.offered(row)[j]).id,
{
    lemma_action_ids();
    lemma_alias_in(p@.aliases, row.payload);
    let o = p.offered(row);
    let packed = row.payload.contains('!');
    let alias = search::alias_in(p@.aliases, row.payload);
    let n: int = if packed {
        0
    } else {
        1
    };
    let open = Offer { id: "open"@, label: "Open"@ };
    let reveal = Offer { id: "reveal"@, label: "Open in Explorer"@ };
    let set = Offer { id: "set_alias"@, label: "Set Alias\u{2026}"@ };
    assert(o[0] == open);
    assert(!packed ==> o[1].id == "run_as_admin"@);
    assert(o[1 + n] == reveal);
    assert(o.last() == set);
    assert(o[o.len() - 1] == set);
    if let Some(a) = alias {
        assert(o.len() == 4 + n);
        let label = o[2 + n].label;
        let front = "Remove Alias \u{201c}"@;
        let back = "\u{201d}"@;
        assert(o[2 + n] == Offer { id: "remove_alias"@, label: front + a + back });
        lemma_says(front, a, back);
        assert forall|b: Seq<char>, i: int|
            #![trigger goes_by(p@.aliases, row.payload, b), o[i]]
            goes_by(p@.aliases, row.payload, b) && 0 <= i < o.len() && o[i].id
                == "remove_alias"@ implies says(o[i].label, b) by {
            assert(b == a);
            assert(i == 2 + n);
        }
    } else {
        assert(o.len() == 3 + n);
    }
}

/// Every action that is offered does something; those that are not offered by
/// any panel do nothing.
pub proof fn law_offered_actions_do_something(p: &Search, row: Row, id: Seq<char>)
    ensures
        offers_action(p.offered(row), id) ==> p.on_action(id, row) != Answer::just(Outcome::Done),
        id != "open"@ && id != "run_as_admin"@ && id != "reveal"@ && id != "set_alias"@ && id
            != "remove_alias"@ ==> p.on_action(id, row) == Answer::just(Outcome::Done)
            && p.acted(id, row) == p.memory(),
{
    lemma_action_ids();
}

/// Enter and "Open" launch the row's own application and close the list;
/// nothing else is launched. As administrator it is the same application.
/// Where Enter, or running as administrator, fails, the list stays.
pub proof fn law_the_row_s_own_application_is_launched(p: &Search, row: Row)
    ensures
        p.on_activate(row).effect == (Deed::Launch { app_id: row.payload }),
        p.on_action("open"@, row).effect == p.on_activate(row).effect,
        p.on_activate(row).outcome(true) == Outcome::Close,
        p.on_activate(row).outcome(false) == Outcome::Done,
        p.on_action("open"@, row).outcome(true) == Outcome::Close,
        p.on_action("open"@, row).outcome(false) == Outcome::Close,
        p.on_action("run_as_admin"@, row).effect == (Deed::LaunchAsAdmin { app_id: row.payload }),
        p.on_action("run_as_admin"@, row).outcome(true) == Outcome::Close,
        p.on_action("run_as_admin"@, row).outcome(false) == Outcome::Done,
        p.on_action("reveal"@, row).effect == (Deed::Reveal { app_id: row.payload }),
        p.on_action("reveal"@, row).outcome(true) == Outcome::Dismiss,
        forall|id: Seq<char>| (#[trigger] p.on_action(id, row)).effect is LaunchAsAdmin ==> id
            == "run_as_admin"@,
        forall|id: Seq<char>| !(#[trigger] p.on_action(id, row)).reload,
        !p.on_activate(row).reload,
{
    lemma_action_ids();
}

/// Only taking the alias back and setting one change what is kept in mind, and
/// neither touches the index.
pub proof fn law_other_actions_leave_the_memory(
    p: &Search,
    row: Row,
    id: Seq<char>,
    text: Seq<char>,
)
    ensures
        id != "remove_alias"@ ==> p.acted(id, row) == p.memory() && !((p.on_action(
            id,
            row,
        )).effect is Rewrite),
        id != "set_alias"@ ==> p.told(id, row, text) == p.memory() && p.on_text(id, row, text)
            == Answer::just(Outcome::Done),
        p.acted(id, row).apps == p@.apps,
        p.told(id, row, text).apps == p@.apps,
        p.acted(id, row).links.len() == 0,
        p.told(id, row, text).links.len() == 0,
{
    lemma_action_ids();
}

// ---- what is kept in mind, and what a reload reads --------------------------------------------

proof fn lemma_aliases_without(
    aliases: Seq<(Seq<char>, Seq<char>)>,
    name: Option<Seq<char>>,
    target: Seq<char>,
)
    ensures
        search::aliases_without(aliases, name, target) == aliases.filter(
            |e: (Seq<char>, Seq<char>)| e.1 != target && name != Some(e.0),
        ),
    decreases aliases.len(),
{
    reveal(Seq::filter);
    if aliases.len() > 0 {
        lemma_aliases_without(aliases.drop_last(), name, target);
    }
}

/// The aliases of a configuration text.
pub open spec fn aliases_on_disk(s: Seq<char>) -> Seq<(Seq<char>, Seq<char>)> {
    config::entries_in(config::settings_of(s), "aliases"@)
}

/// Taking an alias back asks for the file to be rewritten so that no alias is
/// left for the row's application. Where every alias is written once, what the
/// plugin keeps in mind is then what a reload reads, and every alias for
/// another application is still there, in its place.
pub proof fn law_an_alias_taken_back_stays_gone(p: &Search, row: Row, s: Seq<char>)
    requires
        p@.aliases == aliases_on_disk(s),
    ensures
        match p.on_action("remove_alias"@, row).effect {
            Deed::Rewrite(change) => {
                &&& has_no_alias(aliases_on_disk(change.on(s)), row.payload)
                &&& rewrite_laws::written_once(s, "aliases"@) ==> aliases_on_disk(change.on(s))
                    == p.acted("remove_alias"@, row).aliases
            },
            _ => false,
        },
        p.on_action("remove_alias"@, row).result == Outcome::Done,
        p.acted("remove_alias"@, row).aliases == p@.aliases.filter(
            |e: (Seq<char>, Seq<char>)| e.1 != row.payload,
        ),
        has_no_alias(p.acted("remove_alias"@, row).aliases, row.payload),
{
    lemma_action_ids();
    let new = rewrite::without_alias(s, row.payload);
    let keep = |e: (Seq<char>, Seq<char>)| e.1 != row.payload;
    lemma_aliases_without(p@.aliases, None, row.payload);
    assert((|e: (Seq<char>, Seq<char>)| e.1 != row.payload && None::<Seq<char>> != Some(e.0)) =~= keep);
    if rewrite_laws::written_once(s, "aliases"@) {
        rewrite_laws::law_other_aliases_stay(s, row.payload);
    }
    assert forall|i: int| 0 <= i < p@.aliases.filter(keep).len() implies (
    #[trigger] p@.aliases.filter(keep)[i]).1 != row.payload by {
        p@.aliases.lemma_filter_pred(keep, i);
    }
    let after = aliases_on_disk(new);
    assert forall|i: int| 0 <= i < after.len() implies (#[trigger] after[i]).1 != row.payload by {
        lemma_entry_is_read(config::settings_of(new), "aliases"@, i);
        config::law_no_key_is_set_twice(rewrite_laws::pairs_in(new));
        lemma_entry_is_looked_up(config::settings_of(new), "aliases"@, after[i]);
        rewrite_laws::law_removed_aliases_are_gone(s, row.payload, after[i].0);
    }
}

proof fn lemma_entry_is_read(settings: Seq<Setting>, section: Seq<char>, i: int)
    requires
        0 <= i < config::entries_in(settings, section).len(),
    ensures
        exists|k: int|
            0 <= k < settings.len() && (#[trigger] settings[k]).section == section && (
                settings[k].key,
                settings[k].value,
            ) == config::entries_in(settings, section)[i],
    decreases settings.len(),
{
    if settings.len() > 0 {
        let t = settings.drop_last();
        let (e, et) = (config::entries_in(settings, section), config::entries_in(t, section));
        if i < et.len() {
            lemma_entry_is_read(t, section, i);
            let k = choose|k: int|
                0 <= k < t.len() && (#[trigger] t[k]).section == section && (t[k].key, t[k].value)
                    == et[i];
            assert(settings[k] == t[k]);
            assert(e[i] == et[i]);
        } else {
            assert(settings[settings.len() - 1].section == section);
        }
    }
}

proof fn lemma_entry_is_looked_up(
    settings: Seq<Setting>,
    section: Seq<char>,
    e: (Seq<char>, Seq<char>),
)
    requires
        config::unique(settings),
        exists|k: int|
            0 <= k < settings.len() && (#[trigger] settings[k]).section == section && (
                settings[k].key,
                settings[k].value,
            ) == e,
    ensures
        config::lookup(settings, section, e.0) == Some(e.1),
{
    let k = choose|k: int|
        0 <= k < settings.len() && (#[trigger] settings[k]).section == section && (
            settings[k].key,
            settings[k].value,
        ) == e;
    assert forall|j: int| 0 <= j < k implies !((#[trigger] settings[j]).section == section
        && settings[j].key == e.0) by {
        assert(!config::same_key(settings[j], settings[k]));
    }
    config::lemma_place_of_is(settings, section, e.0, k);
}

/// Setting an alias asks for the file to be rewritten so that the alias, in
/// the form of a bare key, stands for the row's application. Where every alias
/// is written once, what the plugin keeps in mind is then what a reload reads:
/// that alias, and every other that has neither its name nor its target. Text
/// of which no key can be made changes nothing.
pub proof fn law_a_set_alias_is_there_after_a_reload(
    p: &Search,
    row: Row,
    text: Seq<char>,
    s: Seq<char>,
    e: (Seq<char>, Seq<char>),
)
    requires
        p@.aliases == aliases_on_disk(s),
        rewrite::quotable(row.payload),
        rewrite_laws::written_once(s, "aliases"@),
    ensures
        ({
            let alias = rewrite::as_key(text::trimmed(text));
            let told = p.told("set_alias"@, row, text).aliases;
            match p.on_text("set_alias"@, row, text).effect {
                Deed::Rewrite(change) => {
                    &&& alias.len() > 0
                    &&& aliases_on_disk(change.on(s)).contains(e) <==> told.contains(e)
                    &&& told.contains(e) <==> e == (alias, row.payload) || e.0 != alias && e.1
                        != row.payload && p@.aliases.contains(e)
                    &&& goes_by(told, row.payload, alias)
                },
                _ => alias.len() == 0 && told == p@.aliases && p.on_text("set_alias"@, row, text)
                    == Answer::just(Outcome::Done),
            }
        }),
        p.on_text("set_alias"@, row, text).result == Outcome::Done,
{
    let alias = rewrite::as_key(text::trimmed(text));
    let told = p.told("set_alias"@, row, text).aliases;
    if alias.len() > 0 {
        rewrite::law_sanitized_keys_are_bare(text::trimmed(text));
        rewrite_laws::law_set_aliases_stand_beside_the_others(s, alias, row.payload, e);
        lemma_aliases_without(p@.aliases, Some(alias), row.payload);
        let keep = |e: (Seq<char>, Seq<char>)| e.1 != row.payload && Some(alias) != Some(e.0);
        let rest = p@.aliases.filter(keep);
        rewrite_laws::lemma_filter_has(p@.aliases, keep, e);
        assert(told[0] == (alias, row.payload));
        assert(told == seq![(alias, row.payload)] + rest);
        if told.contains(e) {
            let i = choose|i: int| 0 <= i < told.len() && told[i] == e;
            if i > 0 {
                assert(rest[i - 1] == e);
            }
        }
        if rest.contains(e) {
            let i = choose|i: int| 0 <= i < rest.len() && rest[i] == e;
            assert(told[i + 1] == e);
        }
    }
}

/// The prompt for an alias names the application.
pub proof fn law_the_alias_prompt_names_the_application(p: &Search, row: Row)
    ensures
        match p.on_action("set_alias"@, row).result {
            Outcome::RequestText { prompt, action_id } => says(prompt, row.title) && action_id
                == "set_alias"@,
            _ => false,
        },
        p.on_action("set_alias"@, row).effect == Deed::Nothing,
{
    lemma_action_ids();
    let front = "Alias for "@;
    lemma_says(front, row.title, Seq::empty());
}

// ---- opening -----------------------------------------------------------------------------------

/// A file is opened as it is and shown selected in its folder; anything else
/// goes by the applications folder, so that two entries are never opened as
/// one.
pub proof fn law_entries_are_opened_apart(a: Seq<char>, b: Seq<char>, is_file: bool)
    ensures
        search::opened(a, true) == a,
        says(search::opened(a, false), a),
        "shell:AppsFolder\\"@.is_prefix_of(search::opened(a, false)),
        search::opened(a, false).len() == 17 + a.len(),
        search::opened(a, is_file) == search::opened(b, is_file) ==> a == b,
        match search::revealed(a, true) {
            (program, Some(argument)) => program == "explorer.exe"@ && says(argument, a)
                && "/select,\""@.is_prefix_of(argument) && argument.last() == '"',
            _ => false,
        },
        search::revealed(a, false).1 is None,
        search::revealed(a, false).0 == "shell:AppsFolder"@,
{
    let front = "shell:AppsFolder\\"@;
    reveal_strlit("shell:AppsFolder\\");
    reveal_strlit("\"");
    let oa = search::opened(a, false);
    let ob = search::opened(b, false);
    assert(oa.skip(17) =~= a);
    assert(ob.skip(17) =~= b);
    lemma_says(front, a, Seq::empty());
    let pre = "/select,\""@;
    let arg = pre + a + "\""@;
    lemma_says(pre, a, "\""@);
    assert(pre.is_prefix_of(arg));
}

/// Every action of the panel goes by its label, and they stand in one order:
/// opening, running as administrator, showing, and the aliases, setting one
/// last.
pub proof fn law_how_the_actions_are_labelled(p: &Search, row: Row, i: int, j: int)
    requires
        0 <= i < p.offered(row).len(),
        0 <= j < p.offered(row).len(),
    ensures
        ({
            let (a, b) = (p.offered(row)[i], p.offered(row)[j]);
            &&& a.id == "open"@ ==> a.label == "Open"@
            &&& a.id == "run_as_admin"@ ==> a.label == "Run as Administrator"@
            &&& a.id == "reveal"@ ==> a.label == "Open in Explorer"@
            &&& a.id == "set_alias"@ ==> a.label == "Set Alias\u{2026}"@
            &&& a.id == "open"@ || a.id == "run_as_admin"@ || a.id == "reveal"@ || a.id
                == "remove_alias"@ || a.id == "set_alias"@
            &&& a.id == "run_as_admin"@ && b.id == "reveal"@ ==> i < j
            &&& a.id == "reveal"@ && b.id == "remove_alias"@ ==> i < j
            &&& a.id == "set_alias"@ ==> i == p.offered(row).len() - 1
        }),
{
    lemma_action_ids();
}

} // verus!
