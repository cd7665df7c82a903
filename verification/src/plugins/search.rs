//! Application search over the application index.
//!
//! The index is built by a helper process and handed to the plugin when it
//! arrives; until the next one arrives, the one at hand stays in place.
use std::sync::Arc;
use vstd::prelude::*;
use vstd::string::*;

use crate::appindex::{self, AppIndex, Application, Catalogue, IndexedApp};
use crate::config;
use crate::fuzzy::{self, fold_case, tell, Pattern};
use crate::pieces;
use crate::plugin::{
    self, is_present, share_icon, Action, ActionResult, Answer, Deed, Disk, Effect, Filled,
    FormField, Icon, Memory, Offer, Outcome, Plugin, Reply, ResultItem, Row,
};
use crate::rewrite::{self, sanitize_key, Change, Rewriting};
use crate::text::{self, chars_of, same, string_of};

verus! {

pub const ID: &'static str = "search";

/// What an exact alias adds to a score.
pub const ALIAS_BOOST: i32 = 2000;

// ---- aliases ------------------------------------------------------------------------

/// The first alias of a target.
pub open spec fn alias_in(aliases: Seq<(Seq<char>, Seq<char>)>, target: Seq<char>) -> Option<
    Seq<char>,
>
    decreases aliases.len(),
{
    if aliases.len() == 0 {
        None
    } else if aliases[0].1 == target {
        Some(aliases[0].0)
    } else {
        alias_in(aliases.drop_first(), target)
    }
}

/// The aliases but for those of a target, and but for one name.
pub open spec fn aliases_without(
    aliases: Seq<(Seq<char>, Seq<char>)>,
    name: Option<Seq<char>>,
    target: Seq<char>,
) -> Seq<(Seq<char>, Seq<char>)>
    decreases aliases.len(),
{
    if aliases.len() == 0 {
        aliases
    } else {
        let before = aliases_without(aliases.drop_last(), name, target);
        if aliases.last().1 == target || name == Some(aliases.last().0) {
            before
        } else {
            before.push(aliases.last())
        }
    }
}

/// Short names for applications: each with what it stands for.
pub struct Aliases {
    pub names: Vec<(String, String)>,
}

impl View for Aliases {
    type V = Seq<(Seq<char>, Seq<char>)>;

    open spec fn view(&self) -> Seq<(Seq<char>, Seq<char>)> {
        config::entry_views(self.names@)
    }
}

impl Aliases {
    pub fn new(names: Vec<(String, String)>) -> (a: Aliases)
        ensures
            a@ == config::entry_views(names@),
    {
        Aliases { names }
    }

    /// The alias of a target.
    pub fn of(&self, target: &str) -> (r: Option<String>)
        ensures
            plugin::worded(r) == alias_in(self@, target@),
    {
        let ghost s = self@;
        let mut i: usize = 0;
        assert(s.skip(0) =~= s);
        while i < self.names.len()
            invariant
                i <= self.names@.len(),
                s == self@,
                alias_in(s, target@) == alias_in(s.skip(i as int), target@),
            decreases self.names@.len() - i,
        {
            assert(s.skip(i as int)[0] == (self.names@[i as int].0@, self.names@[i as int].1@));
            if same(self.names[i].1.as_str(), target) {
                return Some(self.names[i].0.clone());
            }
            assert(s.skip(i as int).drop_first() =~= s.skip(i + 1));
            i += 1;
        }
        None
    }

    /// Takes over the aliases of a reload.
    pub fn reload(&mut self, names: Vec<(String, String)>)
        ensures
            final(self)@ == config::entry_views(names@),
    {
        self.names = names;
    }

    fn drop_names(&mut self, name: Option<&str>, target: &str)
        ensures
            final(self)@ == aliases_without(
                old(self)@,
                match name {
                    Some(n) => Some(n@),
                    None => None,
                },
                target@,
            ),
    {
        let ghost all = self@;
        let ghost n = match name {
            Some(n) => Some(n@),
            None => None,
        };
        let mut i: usize = 0;
        let ghost mut seen: int = 0;
        assert(self@ =~= aliases_without(all.take(0), n, target@) + all.skip(0));
        while i < self.names.len()
            invariant
                i <= self.names@.len(),
                0 <= seen <= all.len(),
                n == (match name {
                    Some(n) => Some(n@),
                    None => None,
                }),
                all.len() - seen == self.names@.len() - i,
                aliases_without(all.take(seen), n, target@).len() == i,
                self@ == aliases_without(all.take(seen), n, target@) + all.skip(seen),
            decreases self.names@.len() - i,
        {
            let ghost kept = aliases_without(all.take(seen), n, target@);
            let ghost now = self@;
            proof {
                assert(all.take(seen + 1).drop_last() =~= all.take(seen));
                assert(all.take(seen + 1).last() == all[seen]);
                assert(now[i as int] == all[seen]);
            }
            let named = match name {
                Some(name) => same(self.names[i].0.as_str(), name),
                None => false,
            };
            if named || same(self.names[i].1.as_str(), target) {
                self.names.remove(i);
                assert(self@ =~= now.remove(i as int));
                assert(self@ =~= kept + all.skip(seen + 1));
            } else {
                assert(self@ =~= kept.push(all[seen]) + all.skip(seen + 1));
                i += 1;
            }
            proof {
                seen = seen + 1;
            }
        }
        assert(all.take(all.len() as int) =~= all);
        assert(self@ =~= aliases_without(all, n, target@));
    }

    /// Makes `alias` stand for `target`, and nothing else for it.
    pub fn set(&mut self, alias: &str, target: &str)
        ensures
            final(self)@ == seq![(alias@, target@)] + aliases_without(
                old(self)@,
                Some(alias@),
                target@,
            ),
    {
        self.drop_names(Some(alias), target);
        let ghost rest = self@;
        self.names.insert(0, (alias.to_owned(), target.to_owned()));
        assert(self@ =~= seq![(alias@, target@)] + rest);
    }

    /// Takes back the alias of a target.
    pub fn remove(&mut self, target: &str)
        ensures
            final(self)@ == aliases_without(old(self)@, None, target@),
    {
        self.drop_names(None, target);
    }
}

proof fn lemma_no_alias_left(
    aliases: Seq<(Seq<char>, Seq<char>)>,
    name: Option<Seq<char>>,
    target: Seq<char>,
)
    ensures
        forall|i: int|
            0 <= i < aliases_without(aliases, name, target).len() ==> (#[trigger] aliases_without(
                aliases,
                name,
                target,
            )[i]).1 != target,
    decreases aliases.len(),
{
    if aliases.len() > 0 {
        lemma_no_alias_left(aliases.drop_last(), name, target);
        let before = aliases_without(aliases.drop_last(), name, target);
        let r = aliases_without(aliases, name, target);
        assert forall|i: int| 0 <= i < r.len() implies (#[trigger] r[i]).1 != target by {
            if i < before.len() {
                assert(r[i] == before[i]);
            }
        }
    }
}

proof fn lemma_alias_in_none(aliases: Seq<(Seq<char>, Seq<char>)>, target: Seq<char>)
    requires
        forall|i: int| 0 <= i < aliases.len() ==> (#[trigger] aliases[i]).1 != target,
    ensures
        alias_in(aliases, target) is None,
    decreases aliases.len(),
{
    if aliases.len() > 0 {
        let t = aliases.drop_first();
        assert forall|i: int| 0 <= i < t.len() implies (#[trigger] t[i]).1 != target by {
            assert(t[i] == aliases[i + 1]);
        }
        assert(aliases[0].1 != target);
        lemma_alias_in_none(t, target);
    }
}

/// An alias that was set is the one that is found; after it is taken back
/// there is none.
pub proof fn law_aliases_are_found(
    aliases: Seq<(Seq<char>, Seq<char>)>,
    alias: Seq<char>,
    target: Seq<char>,
)
    ensures
        alias_in(
            seq![(alias, target)] + aliases_without(aliases, Some(alias), target),
            target,
        ) == Some(alias),
        alias_in(aliases_without(aliases, None, target), target) is None,
{
    lemma_no_alias_left(aliases, None, target);
    lemma_alias_in_none(aliases_without(aliases, None, target), target);
    let s = seq![(alias, target)] + aliases_without(aliases, Some(alias), target);
    assert(s[0] == (alias, target));
}

// ---- rows -----------------------------------------------------------------------------

/// What a query scores against an application: its name, and more when the
/// query is its alias.
pub open spec fn app_score(q: Seq<char>, name: Seq<char>, alias: Option<Seq<char>>) -> Option<int> {
    let hit = alias == Some(fuzzy::folded(q));
    let boost = if hit {
        ALIAS_BOOST as int
    } else {
        0
    };
    match fuzzy::name_score(q, name) {
        Some(s) => Some(fuzzy::told(s + boost)),
        None => if hit {
            Some(boost)
        } else {
            None
        },
    }
}

pub open spec fn app_row(app: Application, alias: Option<Seq<char>>, score: int) -> Row {
    Row {
        plugin: ID@,
        title: app.name,
        badge: alias,
        category: ""@,
        subtitle: "Application"@,
        payload: app.app_id,
        score,
        icon: app.icon,
    }
}

/// The rows of the applications that match.
pub open spec fn app_rows(
    apps: Seq<Application>,
    aliases: Seq<(Seq<char>, Seq<char>)>,
    q: Seq<char>,
) -> Seq<Row>
    decreases apps.len(),
{
    if apps.len() == 0 {
        Seq::empty()
    } else {
        let before = app_rows(apps.drop_last(), aliases, q);
        let app = apps.last();
        let alias = alias_in(aliases, app.app_id);
        match app_score(q, app.name, alias) {
            Some(score) => before.push(app_row(app, alias, score)),
            None => before,
        }
    }
}

/// Where an id stands; the number of applications when it does not.
pub open spec fn app_at(apps: Seq<Application>, app_id: Seq<char>) -> int {
    pieces::first_where(apps, |a: Application| a.app_id == app_id)
}

proof fn lemma_app_rows_are_own(
    apps: Seq<Application>,
    aliases: Seq<(Seq<char>, Seq<char>)>,
    q: Seq<char>,
)
    ensures
        plugin::all_of(app_rows(apps, aliases, q), ID@),
    decreases apps.len(),
{
    if apps.len() > 0 {
        lemma_app_rows_are_own(apps.drop_last(), aliases, q);
    }
}

/// A packaged application: its id is a family name and an application name
/// joined with `!`, which stands in no other id and in no path.
pub open spec fn packaged(app_id: Seq<char>) -> bool {
    app_id.contains('!')
}

/// The actions for an application.
pub open spec fn app_offers(app_id: Seq<char>, alias: Option<Seq<char>>) -> Seq<Offer> {
    let open = seq![Offer { id: "open"@, label: "Open"@ }];
    let admin = if packaged(app_id) {
        Seq::empty()
    } else {
        seq![Offer { id: "run_as_admin"@, label: "Run as Administrator"@ }]
    };
    let reveal = seq![Offer { id: "reveal"@, label: "Open in Explorer"@ }];
    let remove = match alias {
        Some(a) => seq![
            Offer { id: "remove_alias"@, label: "Remove Alias \u{201c}"@ + a + "\u{201d}"@ },
        ],
        None => Seq::empty(),
    };
    let set = seq![Offer { id: "set_alias"@, label: "Set Alias\u{2026}"@ }];
    open + admin + reveal + remove + set
}

/// What the plugin holds.
#[verifier::ext_equal]
pub struct Desk {
    pub apps: Seq<Application>,
    pub aliases: Seq<(Seq<char>, Seq<char>)>,
}

// ---- opening --------------------------------------------------------------------------

/// Whether an entry is a packaged application. Such an application cannot be
/// elevated.
pub fn is_packaged(app_id: &str) -> (r: bool)
    ensures
        r == packaged(app_id@),
{
    let chars = chars_of(app_id);
    proof {
        pieces::lemma_first_of(app_id@, '!');
    }
    pieces::find(chars.as_slice(), '!') < chars.len()
}

/// What the system is asked to open: the file itself where the entry is one,
/// else the application by its place in the applications folder.
pub open spec fn opened(app_id: Seq<char>, is_file: bool) -> Seq<char> {
    if is_file {
        app_id
    } else {
        "shell:AppsFolder\\"@ + app_id
    }
}

pub fn target(app_id: &str, is_file: bool) -> (r: String)
    ensures
        r@ == opened(app_id@, is_file),
{
    if is_file {
        app_id.to_owned()
    } else {
        pieces::concat("shell:AppsFolder\\", app_id)
    }
}

/// What shows where an entry came from: a program to open, and what it is
/// given. A file is selected in its folder; an application that is no file is
/// shown in the applications folder.
pub open spec fn revealed(app_id: Seq<char>, is_file: bool) -> (Seq<char>, Option<Seq<char>>) {
    if is_file {
        ("explorer.exe"@, Some("/select,\""@ + app_id + "\""@))
    } else {
        ("shell:AppsFolder"@, None)
    }
}

pub fn reveal_target(app_id: &str, is_file: bool) -> (r: (String, Option<String>))
    ensures
        (r.0@, plugin::worded(r.1)) == revealed(app_id@, is_file),
{
    if is_file {
        let open = pieces::concat("/select,\"", app_id);
        ("explorer.exe".to_owned(), Some(pieces::concat(open.as_str(), "\"")))
    } else {
        ("shell:AppsFolder".to_owned(), None)
    }
}

// ---- the plugin -------------------------------------------------------------------------

struct AppEntry {
    name: String,
    pattern: Pattern,
    app_id: String,
    icon: Option<Arc<Icon>>,
}

impl View for AppEntry {
    type V = Application;

    closed spec fn view(&self) -> Application {
        Application { name: self.name@, app_id: self.app_id@, icon: plugin::shown(self.icon) }
    }
}

spec fn all_apps(v: Seq<AppEntry>) -> Seq<Application> {
    v.map_values(|e: AppEntry| e@)
}

impl AppEntry {
    spec fn ready(self) -> bool {
        self.pattern.of(self.name@) && self.pattern.fits()
    }

    fn from_index(app: &IndexedApp) -> (e: AppEntry)
        ensures
            e.ready(),
            e@ == app@,
    {
        AppEntry {
            name: app.name.clone(),
            pattern: Pattern::new(app.name.as_str()),
            app_id: app.app_id.clone(),
            icon: share_icon(&app.icon),
        }
    }
}

/// The row of an application.
fn make_item(e: &AppEntry, alias: Option<String>, score: i32) -> (r: ResultItem)
    ensures
        r@ == app_row(e@, plugin::worded(alias), score as int),
{
    ResultItem {
        plugin: ID,
        title: e.name.clone(),
        badge: alias,
        category: "".to_owned(),
        subtitle: "Application".to_owned(),
        payload: e.app_id.clone(),
        score,
        icon: share_icon(&e.icon),
    }
}

/// The search plugin.
pub struct Search {
    entries: Vec<AppEntry>,
    aliases: Aliases,
}

impl View for Search {
    type V = Desk;

    closed spec fn view(&self) -> Desk {
        Desk { apps: all_apps(self.entries@), aliases: self.aliases@ }
    }
}

/// What the plugin keeps in mind.
pub open spec fn remembering(desk: Desk) -> Memory {
    Memory { apps: desk.apps, aliases: desk.aliases, links: Seq::empty() }
}

impl Search {
    #[verifier::type_invariant]
    spec fn prepared(self) -> bool {
        forall|i: int| 0 <= i < self.entries@.len() ==> (#[trigger] self.entries@[i]).ready()
    }

    pub fn new(aliases: Aliases) -> (s: Search)
        ensures
            s@ == (Desk { apps: Seq::empty(), aliases: aliases@ }),
    {
        let s = Search { entries: Vec::new(), aliases };
        assert(s@.apps =~= Seq::empty());
        s
    }

    /// Where an id stands; the number of entries when it does not.
    fn place(&self, app_id: &str) -> (k: usize)
        ensures
            k <= self.entries@.len(),
            k == app_at(self@.apps, app_id@),
    {
        let ghost apps = self@.apps;
        let mut k: usize = 0;
        assert(apps.skip(0) =~= apps);
        while k < self.entries.len()
            invariant
                k <= self.entries@.len(),
                apps == self@.apps,
                app_at(apps, app_id@) == k + app_at(apps.skip(k as int), app_id@),
            decreases self.entries@.len() - k,
        {
            assert(apps.skip(k as int)[0] == self.entries@[k as int]@);
            if same(self.entries[k].app_id.as_str(), app_id) {
                return k;
            }
            assert(apps.skip(k as int).drop_first() =~= apps.skip(k + 1));
            k += 1;
        }
        k
    }
}

impl Plugin for Search {
    open spec fn memory(&self) -> Memory {
        remembering(self@)
    }

    open spec fn reloaded(&self, disk: Disk) -> Memory {
        remembering(
            Desk { aliases: config::entries_in(disk.config@, "aliases"@), apps: self@.apps },
        )
    }

    open spec fn indexed(&self, index: Catalogue) -> Memory {
        remembering(Desk { apps: index.apps, aliases: self@.aliases })
    }

    open spec fn acted(&self, action_id: Seq<char>, row: Row) -> Memory {
        remembering(
            Desk {
                apps: self@.apps,
                aliases: if action_id == "remove_alias"@ {
                    aliases_without(self@.aliases, None, row.payload)
                } else {
                    self@.aliases
                },
            },
        )
    }

    open spec fn told(&self, action_id: Seq<char>, row: Row, text: Seq<char>) -> Memory {
        let alias = rewrite::as_key(text::trimmed(text));
        remembering(
            Desk {
                apps: self@.apps,
                aliases: if action_id == "set_alias"@ && alias.len() > 0 {
                    seq![(alias, row.payload)] + aliases_without(
                        self@.aliases,
                        Some(alias),
                        row.payload,
                    )
                } else {
                    self@.aliases
                },
            },
        )
    }

    open spec fn formed(
        &self,
        action_id: Seq<char>,
        row: Row,
        fields: Seq<Filled>,
        folder: bool,
    ) -> Memory {
        self.memory()
    }

    open spec fn name(&self) -> Seq<char> {
        ID@
    }

    open spec fn found(&self, q: Seq<char>) -> Seq<Row> {
        app_rows(self@.apps, self@.aliases, q)
    }

    open spec fn made(&self, payload: Seq<char>) -> Option<Row> {
        let i = app_at(self@.apps, payload);
        if i < self@.apps.len() {
            let app = self@.apps[i];
            Some(app_row(app, alias_in(self@.aliases, app.app_id), 0))
        } else {
            None
        }
    }

    open spec fn stock(&self) -> Seq<Row> {
        self@.apps.map_values(
            |app: Application| app_row(app, alias_in(self@.aliases, app.app_id), 0),
        )
    }

    open spec fn offered(&self, row: Row) -> Seq<Offer> {
        app_offers(row.payload, alias_in(self@.aliases, row.payload))
    }

    open spec fn on_activate(&self, row: Row) -> Answer {
        Answer {
            effect: Deed::Launch { app_id: row.payload },
            result: Outcome::Close,
            stay_on_failure: true,
            reload: false,
        }
    }

    open spec fn on_action(&self, action_id: Seq<char>, row: Row) -> Answer {
        if action_id == "open"@ {
            Answer::after(Deed::Launch { app_id: row.payload }, Outcome::Close)
        } else if action_id == "run_as_admin"@ {
            Answer {
                effect: Deed::LaunchAsAdmin { app_id: row.payload },
                result: Outcome::Close,
                stay_on_failure: true,
                reload: false,
            }
        } else if action_id == "reveal"@ {
            Answer::after(Deed::Reveal { app_id: row.payload }, Outcome::Dismiss)
        } else if action_id == "set_alias"@ {
            Answer::just(
                Outcome::RequestText {
                    prompt: "Alias for "@ + row.title,
                    action_id: "set_alias"@,
                },
            )
        } else if action_id == "remove_alias"@ {
            Answer::after(
                Deed::Rewrite(Rewriting::RemoveAlias { target: row.payload }),
                Outcome::Done,
            )
        } else {
            Answer::just(Outcome::Done)
        }
    }

    open spec fn on_text(&self, action_id: Seq<char>, row: Row, text: Seq<char>) -> Answer {
        let alias = rewrite::as_key(text::trimmed(text));
        if action_id == "set_alias"@ && alias.len() > 0 {
            Answer::after(
                Deed::Rewrite(Rewriting::SetAlias { alias, target: row.payload }),
                Outcome::Done,
            )
        } else {
            Answer::just(Outcome::Done)
        }
    }

    open spec fn form_wants(&self, action_id: Seq<char>, fields: Seq<Filled>) -> Option<Seq<char>> {
        None
    }

    open spec fn on_form(
        &self,
        action_id: Seq<char>,
        row: Row,
        fields: Seq<Filled>,
        folder: bool,
    ) -> Answer {
        Answer::just(Outcome::Done)
    }

    fn id(&self) -> (r: &'static str) {
        ID
    }

    fn query(&self, q: &str, out: &mut Vec<ResultItem>) {
        proof {
            use_type_invariant(self);
        }
        let query = fold_case(q);
        let query_str = string_of(query.as_slice());
        let ghost start = plugin::rows(out@);
        let ghost apps = self@.apps;
        let ghost al = self@.aliases;
        let mut i: usize = 0;
        assert(plugin::rows(out@) =~= start + app_rows(apps.take(0), al, q@));
        while i < self.entries.len()
            invariant
                i <= self.entries@.len(),
                self.prepared(),
                apps == self@.apps,
                al == self@.aliases,
                query@ == fuzzy::folded(q@),
                query_str@ == query@,
                plugin::rows(out@) == start + app_rows(apps.take(i as int), al, q@),
            decreases self.entries@.len() - i,
        {
            let e = &self.entries[i];
            let ghost before = app_rows(apps.take(i as int), al, q@);
            proof {
                assert(e.ready());
                assert(apps[i as int] == e@);
                assert(apps.take(i + 1).drop_last() =~= apps.take(i as int));
                assert(apps.take(i + 1).last() == apps[i as int]);
            }
            let alias = self.aliases.of(e.app_id.as_str());
            let hit = match &alias {
                Some(a) => same(a.as_str(), query_str.as_str()),
                None => false,
            };
            let boost: i32 = if hit {
                ALIAS_BOOST
            } else {
                0
            };
            let score: Option<i32> = match e.pattern.score(query.as_slice()) {
                Some(s) => Some(tell(s as i128 + boost as i128)),
                None => if hit {
                    Some(boost)
                } else {
                    None
                },
            };
            if let Some(score) = score {
                let ghost so_far = plugin::rows(out@);
                let item = make_item(e, alias, score);
                out.push(item);
                proof {
                    assert(plugin::rows(out@) =~= so_far.push(item@));
                    assert(plugin::rows(out@) =~= start + before.push(item@));
                }
            }
            i += 1;
        }
        assert(apps.take(apps.len() as int) =~= apps);
    }

    fn item_for(&self, payload: &str) -> (r: Option<ResultItem>) {
        let k: usize = self.place(payload);
        if k == self.entries.len() {
            return None;
        }
        let e = &self.entries[k];
        assert(self@.apps[k as int] == e@);
        Some(make_item(e, self.aliases.of(e.app_id.as_str()), 0))
    }

    fn browse(&self, limit: usize, out: &mut Vec<ResultItem>) {
        let ghost start = plugin::rows(out@);
        let ghost stock = self.stock();
        let before: usize = out.len();
        let mut i: usize = 0;
        assert(plugin::rows(out@) =~= plugin::browsed(start, stock.take(0), limit as nat));
        while i < self.entries.len()
            invariant
                i <= self.entries@.len(),
                stock == self.stock(),
                before == start.len(),
                before <= out@.len(),
                plugin::rows(out@) == plugin::browsed(start, stock.take(i as int), limit as nat),
            decreases self.entries@.len() - i,
        {
            let e = &self.entries[i];
            proof {
                assert(stock.take(i + 1).drop_last() =~= stock.take(i as int));
                assert(stock.take(i + 1).last() == stock[i as int]);
                assert(self@.apps[i as int] == e@);
            }
            if out.len() - before < limit && !is_present(out, ID, e.app_id.as_str()) {
                let ghost so_far = plugin::rows(out@);
                let item = make_item(e, self.aliases.of(e.app_id.as_str()), 0);
                out.push(item);
                assert(plugin::rows(out@) =~= so_far.push(item@));
            }
            i += 1;
        }
        assert(stock.take(stock.len() as int) =~= stock);
    }

    fn refresh(&mut self, disk: &Disk) {
        proof {
            use_type_invariant(&*self);
        }
        let names = disk.config.aliases_map();
        self.aliases = Aliases::new(names);
    }

    fn index_arrived(&mut self, index: &AppIndex) {
        proof {
            use_type_invariant(&*self);
        }
        let mut entries: Vec<AppEntry> = Vec::new();
        let mut i: usize = 0;
        assert(all_apps(entries@) =~= index@.apps.take(0));
        while i < index.apps.len()
            invariant
                i <= index.apps@.len(),
                forall|k: int| 0 <= k < entries@.len() ==> (#[trigger] entries@[k]).ready(),
                all_apps(entries@) == index@.apps.take(i as int),
            decreases index.apps@.len() - i,
        {
            let e = AppEntry::from_index(&index.apps[i]);
            let ghost before = all_apps(entries@);
            entries.push(e);
            proof {
                assert(all_apps(entries@) =~= before.push(e@));
                assert(index@.apps[i as int] == index.apps@[i as int]@);
                assert(index@.apps.take(i + 1) =~= index@.apps.take(i as int).push(e@));
            }
            i += 1;
        }
        assert(index@.apps.take(index@.apps.len() as int) =~= index@.apps);
        self.entries = entries;
    }

    fn activate(&self, item: &ResultItem) -> (r: Reply) {
        Reply {
            effect: Effect::Launch { app_id: item.payload.clone() },
            result: ActionResult::Close,
            stay_on_failure: true,
            reload: false,
        }
    }

    fn actions(&self, item: &ResultItem) -> (r: Vec<Action>) {
        let mut r: Vec<Action> = Vec::new();
        r.push(Action { id: "open", label: "Open".to_owned() });
        if !is_packaged(item.payload.as_str()) {
            r.push(Action { id: "run_as_admin", label: "Run as Administrator".to_owned() });
        }
        r.push(Action { id: "reveal", label: "Open in Explorer".to_owned() });
        if let Some(alias) = self.aliases.of(item.payload.as_str()) {
            let open = pieces::concat("Remove Alias \u{201c}", alias.as_str());
            let label = pieces::concat(open.as_str(), "\u{201d}");
            r.push(Action { id: "remove_alias", label });
        }
        r.push(Action { id: "set_alias", label: "Set Alias\u{2026}".to_owned() });
        assert(plugin::offers(r@) =~= self.offered(item@));
        r
    }

    fn run_action(&mut self, action_id: &str, item: &ResultItem) -> (r: Reply) {
        proof {
            reveal_strlit("open");
            reveal_strlit("run_as_admin");
            reveal_strlit("reveal");
            reveal_strlit("set_alias");
            reveal_strlit("remove_alias");
            assert("run_as_admin"@[1] == 'u' && "remove_alias"@[1] == 'e');
            assert("open"@.len() == 4 && "reveal"@.len() == 6 && "set_alias"@.len() == 9);
            assert("remove_alias"@.len() == 12);
        }
        let app_id = item.payload.clone();
        if same(action_id, "open") {
            Reply::after(Effect::Launch { app_id }, ActionResult::Close)
        } else if same(action_id, "run_as_admin") {
            // A prompt that was declined leaves the list: nothing was launched.
            Reply {
                effect: Effect::LaunchAsAdmin { app_id },
                result: ActionResult::Close,
                stay_on_failure: true,
                reload: false,
            }
        } else if same(action_id, "reveal") {
            // Looking at where an application lives is not launching it.
            Reply::after(Effect::Reveal { app_id }, ActionResult::Dismiss)
        } else if same(action_id, "set_alias") {
            let prompt = pieces::concat("Alias for ", item.title.as_str());
            Reply::just(ActionResult::RequestText { prompt, action_id: "set_alias" })
        } else if same(action_id, "remove_alias") {
            proof {
                use_type_invariant(&*self);
            }
            let mut aliases = Aliases::new(Vec::new());
            std::mem::swap(&mut aliases, &mut self.aliases);
            aliases.remove(app_id.as_str());
            self.aliases = aliases;
            Reply::after(
                Effect::Rewrite(Change::RemoveAlias { target: app_id }),
                ActionResult::Done,
            )
        } else {
            Reply::just(ActionResult::Done)
        }
    }

    fn submit_text(&mut self, action_id: &str, item: &ResultItem, text: &str) -> (r: Reply) {
        if !same(action_id, "set_alias") {
            return Reply::just(ActionResult::Done);
        }
        let alias = sanitize_key(text);
        if chars_of(alias.as_str()).len() == 0 {
            return Reply::just(ActionResult::Done);
        }
        proof {
            use_type_invariant(&*self);
        }
        let mut aliases = Aliases::new(Vec::new());
        std::mem::swap(&mut aliases, &mut self.aliases);
        aliases.set(alias.as_str(), item.payload.as_str());
        self.aliases = aliases;
        Reply::after(
            Effect::Rewrite(Change::SetAlias { alias, target: item.payload.clone() }),
            ActionResult::Done,
        )
    }

    fn form_path(&self, action_id: &str, fields: &Vec<FormField>) -> (r: Option<String>) {
        None
    }

    fn submit_form(
        &mut self,
        action_id: &str,
        item: &ResultItem,
        fields: &Vec<FormField>,
        folder: bool,
    ) -> (r: Reply) {
        Reply::just(ActionResult::Done)
    }
}

/// What the plugin shows and answers follows from what it keeps in mind.
pub proof fn law_search_goes_by_its_memory(
    a: &Search,
    b: &Search,
    q: Seq<char>,
    row: Row,
    action_id: Seq<char>,
)
    requires
        a.memory() == b.memory(),
    ensures
        a.found(q) == b.found(q),
        a.made(q) == b.made(q),
        a.stock() == b.stock(),
        a.offered(row) == b.offered(row),
        a.on_activate(row) == b.on_activate(row),
        a.on_action(action_id, row) == b.on_action(action_id, row),
{
    assert(a@ == b@);
}

/// Every application row says where it comes from.
pub proof fn law_application_rows_are_own(p: &Search)
    ensures
        plugin::owns_its_rows(p),
{
    assert forall|q: Seq<char>| plugin::all_of(#[trigger] p.found(q), p.name()) by {
        lemma_app_rows_are_own(p@.apps, p@.aliases, q);
    }
    assert forall|payload: Seq<char>| (#[trigger] p.made(payload)) matches Some(row) ==> row.plugin
        == p.name() && row.payload == payload by {
        pieces::lemma_first_where(p@.apps, |a: Application| a.app_id == payload);
    }
}

} // verus!
