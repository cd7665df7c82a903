//! Quicklinks: links, paths and programs of the user's own, opened by name.
//!
//! Each is a sub-table of the configuration file:
//!
//! ```toml
//! [quicklinks.github]
//! name = 'Search GitHub'
//! link = 'https://github.com/search?q={query}'
//! open_with = 'chrome'          # optional
//! ```
//!
//! A `{token}` in the link makes it take an argument: activating the quicklink
//! asks for it by the token's name. Quicklinks are made and edited from inside
//! the launcher, which rewrites only their own block of the file.
use std::sync::Arc;
use vstd::prelude::*;
use vstd::string::*;

use crate::appindex::{AppIndex, Catalogue};
use crate::config::{self, holds_string};
use crate::fuzzy::{self, fold_case, Pattern};
use crate::numbers;
use crate::order::{self, Key, Keyed};
use crate::pieces;
use crate::plugin::{
    self, is_present, share_icon, Action, ActionResult, Answer, Bitmap, Deed, Disk, Effect, Filled,
    FormField, Icon, Memory, Offer, Outcome, Plugin, Reply, ResultItem, Row,
};
use crate::plugins::links::{self, fill, placeholder, url};
use crate::rewrite::{self, sanitize_key, sanitize_value, Change, Rewriting};
use crate::text::{self, chars_of, same, string_of, trim_str};

verus! {

pub const ID: &'static str = "quicklinks";

/// The row that opens the form for a new quicklink.
pub const CREATE_LABEL: &'static str = "Create Quicklink";

/// Its payload. Slugs are bare keys, so none of them begins with `!`.
pub const CREATE_PAYLOAD: &'static str = "!create";

/// Asked for when a link has an empty `{}`.
pub const DEFAULT_ARG: &'static str = "query";

/// The system's icons for the kinds of links.
pub struct StockIcons {
    pub internet: Option<Arc<Icon>>,
    pub folder: Option<Arc<Icon>>,
    pub application: Option<Arc<Icon>>,
}

/// What the stock icons show.
#[verifier::ext_equal]
pub struct Art {
    pub internet: Option<Bitmap>,
    pub folder: Option<Bitmap>,
    pub application: Option<Bitmap>,
}

impl View for StockIcons {
    type V = Art;

    open spec fn view(&self) -> Art {
        Art {
            internet: plugin::shown(self.internet),
            folder: plugin::shown(self.folder),
            application: plugin::shown(self.application),
        }
    }
}

impl Art {
    /// The icon for a link.
    pub open spec fn of(self, link: Seq<char>, folder: bool) -> Option<Bitmap> {
        if links::is_url(link) {
            self.internet
        } else if folder {
            self.folder
        } else {
            self.application
        }
    }
}

impl StockIcons {
    fn pick(&self, link: &str, folder: bool) -> (r: Option<Arc<Icon>>)
        ensures
            plugin::shown(r) == self@.of(link@, folder),
    {
        if url(link) {
            share_icon(&self.internet)
        } else if folder {
            share_icon(&self.folder)
        } else {
            share_icon(&self.application)
        }
    }
}

/// A quicklink.
#[verifier::ext_equal]
pub struct Link {
    /// Names the section, and is the payload. It survives renames, so that
    /// launch history does.
    pub slug: Seq<char>,
    pub name: Seq<char>,
    pub link: Seq<char>,
    pub open_with: Seq<char>,
    pub icon: Option<Bitmap>,
}

/// What the plugin holds.
#[verifier::ext_equal]
pub struct Shelf {
    pub links: Seq<Link>,
    pub art: Art,
}

/// Quicklinks go by their names.
pub open spec fn by_name() -> spec_fn(Link) -> Key {
    |l: Link| Key { number: 0, text: l.name }
}

/// The value of a key in a sub-table, cleaned up; empty when it is not there.
pub open spec fn value_in(entries: Seq<(Seq<char>, Seq<char>)>, key: Seq<char>) -> Seq<char>
    decreases entries.len(),
{
    if entries.len() == 0 {
        Seq::empty()
    } else if entries[0].0 == key {
        text::trimmed(entries[0].1)
    } else {
        value_in(entries.drop_first(), key)
    }
}

/// The quicklink of a sub-table. One without a target is no quicklink; one
/// without a name goes by its slug.
pub open spec fn link_of(
    table: (Seq<char>, Seq<(Seq<char>, Seq<char>)>),
    art: Art,
    folders: Seq<Seq<char>>,
) -> Option<Link> {
    let link = value_in(table.1, "link"@);
    let name = value_in(table.1, "name"@);
    if link.len() == 0 {
        None
    } else {
        Some(
            Link {
                slug: table.0,
                name: if name.len() == 0 {
                    table.0
                } else {
                    name
                },
                link,
                open_with: value_in(table.1, "open_with"@),
                icon: art.of(link, folders.contains(link)),
            },
        )
    }
}

/// The quicklinks of the sub-tables, in the order these have.
pub open spec fn links_of(
    tables: Seq<(Seq<char>, Seq<(Seq<char>, Seq<char>)>)>,
    art: Art,
    folders: Seq<Seq<char>>,
) -> Seq<Link>
    decreases tables.len(),
{
    if tables.len() == 0 {
        Seq::empty()
    } else {
        let before = links_of(tables.drop_last(), art, folders);
        match link_of(tables.last(), art, folders) {
            Some(l) => before.push(l),
            None => before,
        }
    }
}

/// Where a slug stands; the number of links when it does not.
pub open spec fn slug_at(links: Seq<Link>, slug: Seq<char>) -> int {
    pieces::first_where(links, |l: Link| l.slug == slug)
}

/// The quicklink with a slug.
pub open spec fn find_in(links: Seq<Link>, slug: Seq<char>) -> Option<Link> {
    let i = slug_at(links, slug);
    if i < links.len() {
        Some(links[i])
    } else {
        None
    }
}

pub open spec fn taken(links: Seq<Link>, slug: Seq<char>) -> bool {
    find_in(links, slug) is Some
}

/// A slug with a number behind it.
pub open spec fn numbered(base: Seq<char>, n: nat) -> Seq<char> {
    base + "-"@ + numbers::shown(n)
}

/// What a name gives for a slug.
pub open spec fn slug_base(name: Seq<char>) -> Seq<char> {
    let key = rewrite::as_key(text::trimmed(name));
    if key.len() == 0 {
        "link"@
    } else {
        key
    }
}

/// `slug` is the first that is free for `name`: the name as a bare key, or
/// that with the smallest number from 2 that makes it free.
pub open spec fn is_free_slug(links: Seq<Link>, name: Seq<char>, slug: Seq<char>) -> bool {
    let base = slug_base(name);
    if !taken(links, base) {
        slug == base
    } else {
        exists|n: nat|
            n >= 2 && slug == #[trigger] numbered(base, n) && !taken(links, slug) && (forall|m: nat|
                2 <= m < n ==> taken(links, #[trigger] numbered(base, m)))
    }
}

/// The slug a new quicklink gets.
pub open spec fn free_slug_of(links: Seq<Link>, name: Seq<char>) -> Seq<char> {
    choose|slug: Seq<char>| is_free_slug(links, name, slug)
}

pub open spec fn link_row(l: Link, score: int) -> Row {
    Row {
        plugin: ID@,
        title: l.name,
        badge: None,
        category: ""@,
        subtitle: "Quicklink"@,
        payload: l.slug,
        score,
        icon: l.icon,
    }
}

/// The row that opens the form for a new quicklink.
pub open spec fn create_row(art: Art, score: int) -> Row {
    Row {
        plugin: ID@,
        title: CREATE_LABEL@,
        badge: None,
        category: ""@,
        subtitle: "Quicklink"@,
        payload: CREATE_PAYLOAD@,
        score,
        icon: art.internet,
    }
}

/// The rows of the links that match.
pub open spec fn link_rows(links: Seq<Link>, q: Seq<char>) -> Seq<Row>
    decreases links.len(),
{
    if links.len() == 0 {
        Seq::empty()
    } else {
        let before = link_rows(links.drop_last(), q);
        match fuzzy::name_score(q, links.last().name) {
            Some(score) => before.push(link_row(links.last(), score as int)),
            None => before,
        }
    }
}

proof fn lemma_link_rows_are_own(links: Seq<Link>, q: Seq<char>)
    ensures
        plugin::all_of(link_rows(links, q), ID@),
    decreases links.len(),
{
    if links.len() > 0 {
        lemma_link_rows_are_own(links.drop_last(), q);
    }
}

/// The form of a quicklink.
pub open spec fn form_of(
    title: Seq<char>,
    action_id: Seq<char>,
    name: Seq<char>,
    link: Seq<char>,
    open_with: Seq<char>,
) -> Outcome {
    Outcome::RequestForm {
        title,
        action_id,
        fields: seq![
            Filled { label: "Name"@, value: name },
            Filled { label: "Link"@, value: link },
            Filled { label: "Open with (optional)"@, value: open_with },
        ],
    }
}

/// The empty form.
pub open spec fn new_form() -> Outcome {
    form_of("New Quicklink"@, "create"@, ""@, ""@, ""@)
}

/// The answer to a quicklink being opened: its argument is asked for first,
/// where it takes one.
pub open spec fn open_answer(links: Seq<Link>, slug: Seq<char>) -> Answer {
    match find_in(links, slug) {
        Some(l) => match links::token_in(l.link) {
            Some(token) => Answer::just(
                Outcome::RequestText {
                    prompt: if token.len() == 0 {
                        DEFAULT_ARG@
                    } else {
                        token
                    },
                    action_id: "fill"@,
                },
            ),
            None => Answer::after(
                Deed::OpenLink { link: l.link, open_with: l.open_with },
                Outcome::Close,
            ),
        },
        None => Answer::just(Outcome::Done),
    }
}

/// The value of a form's line, cleaned up; empty when there is no such line.
pub open spec fn field_value(fields: Seq<Filled>, i: int) -> Seq<char> {
    if 0 <= i < fields.len() {
        text::trimmed(rewrite::without_quotes(fields[i].value))
    } else {
        Seq::empty()
    }
}

/// The quicklink a form describes.
pub open spec fn link_in_form(
    links: Seq<Link>,
    art: Art,
    action_id: Seq<char>,
    payload: Seq<char>,
    fields: Seq<Filled>,
    folder: bool,
) -> Link {
    let (name, link) = (field_value(fields, 0), field_value(fields, 1));
    let name = if name.len() == 0 {
        link
    } else {
        name
    };
    Link {
        slug: if action_id == "edit"@ && taken(links, payload) {
            payload
        } else {
            free_slug_of(links, name)
        },
        name,
        link,
        open_with: field_value(fields, 2),
        icon: art.of(link, folder),
    }
}

/// The answer to a quicklink form. Without a link the form comes back with
/// what was typed.
pub open spec fn form_answer(
    links: Seq<Link>,
    art: Art,
    action_id: Seq<char>,
    payload: Seq<char>,
    fields: Seq<Filled>,
    folder: bool,
) -> Answer {
    if field_value(fields, 1).len() == 0 {
        Answer::just(
            form_of(
                "Link is required"@,
                if action_id == "edit"@ {
                    "edit"@
                } else {
                    "create"@
                },
                field_value(fields, 0),
                field_value(fields, 1),
                field_value(fields, 2),
            ),
        )
    } else {
        let l = link_in_form(links, art, action_id, payload, fields, folder);
        Answer::after(
            Deed::Rewrite(
                Rewriting::SaveQuicklink {
                    slug: l.slug,
                    name: l.name,
                    link: l.link,
                    open_with: l.open_with,
                },
            ),
            Outcome::Done,
        )
    }
}

/// The links with one more, or with one replaced that has its slug; by name.
pub open spec fn saved(links: Seq<Link>, l: Link) -> Seq<Link> {
    let i = slug_at(links, l.slug);
    order::ranked(
        if i < links.len() {
            links.update(i, l)
        } else {
            links.push(l)
        },
        by_name(),
    )
}

/// The links without those of a slug.
pub open spec fn without_slug(links: Seq<Link>, slug: Seq<char>) -> Seq<Link>
    decreases links.len(),
{
    if links.len() == 0 {
        links
    } else if links.last().slug == slug {
        without_slug(links.drop_last(), slug)
    } else {
        without_slug(links.drop_last(), slug).push(links.last())
    }
}

pub proof fn lemma_slug_at(links: Seq<Link>, slug: Seq<char>)
    ensures
        0 <= slug_at(links, slug) <= links.len(),
        slug_at(links, slug) < links.len() ==> links[slug_at(links, slug)].slug == slug,
        forall|j: int| 0 <= j < slug_at(links, slug) ==> (#[trigger] links[j]).slug != slug,
{
    pieces::lemma_first_where(links, |l: Link| l.slug == slug);
}

pub proof fn lemma_slug_at_is(links: Seq<Link>, slug: Seq<char>, i: int)
    requires
        0 <= i <= links.len(),
        i < links.len() ==> links[i].slug == slug,
        forall|j: int| 0 <= j < i ==> (#[trigger] links[j]).slug != slug,
    ensures
        slug_at(links, slug) == i,
{
    pieces::lemma_first_where_is(links, |l: Link| l.slug == slug, i);
}

proof fn lemma_numbered_differ(base: Seq<char>, m: nat, n: nat)
    requires
        numbered(base, m) == numbered(base, n),
    ensures
        m == n,
{
    let head = base + "-"@;
    assert(numbered(base, m).skip(head.len() as int) =~= numbers::shown(m));
    assert(numbered(base, n).skip(head.len() as int) =~= numbers::shown(n));
    numbers::law_shown_numbers_differ(m, n);
}

/// There is one first free slug.
pub proof fn law_the_free_slug_is_determined(
    links: Seq<Link>,
    name: Seq<char>,
    a: Seq<char>,
    b: Seq<char>,
)
    requires
        is_free_slug(links, name, a),
        is_free_slug(links, name, b),
    ensures
        a == b,
        !taken(links, a),
{
    let base = slug_base(name);
    if taken(links, base) {
        let m = choose|n: nat|
            n >= 2 && a == #[trigger] numbered(base, n) && !taken(links, a) && (forall|m: nat|
                2 <= m < n ==> taken(links, #[trigger] numbered(base, m)));
        let n = choose|n: nat|
            n >= 2 && b == #[trigger] numbered(base, n) && !taken(links, b) && (forall|m: nat|
                2 <= m < n ==> taken(links, #[trigger] numbered(base, m)));
        if m < n {
            assert(taken(links, numbered(base, m)));
        } else if n < m {
            assert(taken(links, numbered(base, n)));
        }
    }
}

/// There are no more numbers taken than there are links.
pub proof fn lemma_numbers_run_out(links: Seq<Link>, base: Seq<char>, n: nat)
    requires
        n >= 2,
        forall|m: nat| 2 <= m < n ==> taken(links, #[trigger] numbered(base, m)),
    ensures
        n - 2 <= links.len(),
{
    broadcast use vstd::seq_lib::seq_to_set_is_finite;

    let slugs = links.map_values(|l: Link| l.slug);
    let f = |m: int| numbered(base, m as nat);
    let range = vstd::set_lib::set_int_range(2, n as int);
    vstd::set_lib::lemma_int_range(2, n as int);
    assert(vstd::relations::injective_on(f, range)) by {
        assert forall|a: int, b: int|
            range.contains(a) && range.contains(b) && #[trigger] f(a) == #[trigger] f(
                b,
            ) implies a == b by {
            lemma_numbered_differ(base, a as nat, b as nat);
        }
    }
    vstd::set_lib::lemma_map_size(range, range.map(f), f);
    assert(range.map(f).subset_of(slugs.to_set())) by {
        assert forall|s: Seq<char>| range.map(f).contains(s) implies slugs.to_set().contains(
            s,
        ) by {
            let m = choose|m: int| range.contains(m) && f(m) == s;
            assert(taken(links, numbered(base, m as nat)));
            lemma_slug_at(links, s);
            assert(slugs[slug_at(links, s)] == s);
        }
    }
    slugs.lemma_cardinality_of_set();
    vstd::set_lib::lemma_len_subset(range.map(f), slugs.to_set());
}

struct Entry {
    slug: String,
    name: String,
    link: String,
    open_with: String,
    pattern: Pattern,
    icon: Option<Arc<Icon>>,
}

impl View for Entry {
    type V = Link;

    closed spec fn view(&self) -> Link {
        Link {
            slug: self.slug@,
            name: self.name@,
            link: self.link@,
            open_with: self.open_with@,
            icon: plugin::shown(self.icon),
        }
    }
}

impl Keyed for Entry {
    closed spec fn key(&self) -> Key {
        Key { number: 0, text: self.name@ }
    }

    fn goes_before(&self, other: &Self) -> (r: bool) {
        order::comes_first(self.name.as_str(), other.name.as_str())
    }
}

spec fn all_links(v: Seq<Entry>) -> Seq<Link> {
    v.map_values(|e: Entry| e@)
}

impl Entry {
    spec fn ready(self) -> bool {
        self.pattern.of(self.name@) && self.pattern.fits()
    }

    fn new(
        slug: String,
        name: String,
        link: String,
        open_with: String,
        icon: Option<Arc<Icon>>,
    ) -> (e: Entry)
        ensures
            e.ready(),
            e@ == (Link {
                slug: slug@,
                name: name@,
                link: link@,
                open_with: open_with@,
                icon: plugin::shown(icon),
            }),
    {
        let pattern = Pattern::new(name.as_str());
        Entry { slug, name, link, open_with, pattern, icon }
    }

    fn item(&self, score: i32) -> (r: ResultItem)
        ensures
            r@ == link_row(self@, score as int),
    {
        ResultItem {
            plugin: ID,
            title: self.name.clone(),
            badge: None,
            category: "".to_owned(),
            subtitle: "Quicklink".to_owned(),
            payload: self.slug.clone(),
            score,
            icon: share_icon(&self.icon),
        }
    }
}

spec fn all_ready(v: Seq<Entry>) -> bool {
    forall|i: int| 0 <= i < v.len() ==> (#[trigger] v[i]).ready()
}

proof fn lemma_put_in_ready(v: Seq<Entry>, x: Entry, key: spec_fn(Entry) -> Key)
    requires
        all_ready(v),
        x.ready(),
    ensures
        all_ready(order::put_in(v, x, key)),
    decreases v.len(),
{
    if v.len() > 0 && order::before(key(x), key(v.last())) {
        let t = v.drop_last();
        assert forall|i: int| 0 <= i < t.len() implies (#[trigger] t[i]).ready() by {
            assert(t[i] == v[i]);
        }
        lemma_put_in_ready(t, x, key);
        assert(v[v.len() - 1].ready());
    }
}

proof fn lemma_ranked_ready(v: Seq<Entry>, key: spec_fn(Entry) -> Key)
    requires
        all_ready(v),
    ensures
        all_ready(order::ranked(v, key)),
    decreases v.len(),
{
    if v.len() > 0 {
        let t = v.drop_last();
        assert forall|i: int| 0 <= i < t.len() implies (#[trigger] t[i]).ready() by {
            assert(t[i] == v[i]);
        }
        lemma_ranked_ready(t, key);
        assert(v[v.len() - 1].ready());
        lemma_put_in_ready(order::ranked(t, key), v.last(), key);
    }
}

/// Puts the entries in order, by name.
fn sort_entries(v: &mut Vec<Entry>)
    requires
        all_ready(old(v)@),
    ensures
        all_ready(final(v)@),
        all_links(final(v)@) == order::ranked(all_links(old(v)@), by_name()),
{
    proof {
        lemma_ranked_ready(v@, order::key_of::<Entry>());
        order::lemma_ranked_maps(v@, |e: Entry| e@, order::key_of::<Entry>(), by_name());
    }
    order::sort(v);
}

/// The quicklinks plugin.
pub struct Quicklinks {
    entries: Vec<Entry>,
    create: Pattern,
    icons: StockIcons,
}

impl View for Quicklinks {
    type V = Shelf;

    closed spec fn view(&self) -> Shelf {
        Shelf { links: all_links(self.entries@), art: self.icons@ }
    }
}

fn value_of(entries: &Vec<(String, String)>, key: &str) -> (r: String)
    ensures
        r@ == value_in(config::entry_views(entries@), key@),
{
    let ghost es = config::entry_views(entries@);
    let mut i: usize = 0;
    assert(es.skip(0) =~= es);
    while i < entries.len()
        invariant
            i <= entries@.len(),
            es == config::entry_views(entries@),
            value_in(es, key@) == value_in(es.skip(i as int), key@),
        decreases entries@.len() - i,
    {
        assert(es.skip(i as int)[0] == (entries@[i as int].0@, entries@[i as int].1@));
        if same(entries[i].0.as_str(), key) {
            return trim_str(entries[i].1.as_str());
        }
        assert(es.skip(i as int).drop_first() =~= es.skip(i + 1));
        i += 1;
    }
    let r = String::new();
    assert(r@ =~= Seq::empty());
    r
}

fn empty(s: &String) -> (r: bool)
    ensures
        r == (s@.len() == 0),
{
    chars_of(s.as_str()).len() == 0
}

fn entries_of(
    tables: &Vec<(String, Vec<(String, String)>)>,
    icons: &StockIcons,
    folders: &Vec<String>,
) -> (out: Vec<Entry>)
    ensures
        all_ready(out@),
        all_links(out@) == links_of(
            config::subtable_views(tables@),
            icons@,
            pieces::strings(folders@),
        ),
{
    let ghost ts = config::subtable_views(tables@);
    let ghost fs = pieces::strings(folders@);
    let mut out: Vec<Entry> = Vec::new();
    let mut i: usize = 0;
    assert(all_links(out@) =~= links_of(ts.take(0), icons@, fs));
    while i < tables.len()
        invariant
            i <= tables@.len(),
            ts == config::subtable_views(tables@),
            fs == pieces::strings(folders@),
            all_ready(out@),
            all_links(out@) == links_of(ts.take(i as int), icons@, fs),
        decreases tables@.len() - i,
    {
        proof {
            assert(ts.take(i + 1).drop_last() =~= ts.take(i as int));
            assert(ts.take(i + 1).last() == ts[i as int]);
        }
        let link = value_of(&tables[i].1, "link");
        if !empty(&link) {
            let name = value_of(&tables[i].1, "name");
            let name = if empty(&name) {
                tables[i].0.clone()
            } else {
                name
            };
            let open_with = value_of(&tables[i].1, "open_with");
            let folder = holds_string(folders, link.as_str());
            let icon = icons.pick(link.as_str(), folder);
            let e = Entry::new(tables[i].0.clone(), name, link, open_with, icon);
            let ghost before = all_links(out@);
            out.push(e);
            assert(all_links(out@) =~= before.push(e@));
        }
        i += 1;
    }
    assert(ts.take(ts.len() as int) =~= ts);
    out
}

/// The links among the sub-tables of which it matters whether they are
/// folders.
pub fn targets(tables: &Vec<(String, Vec<(String, String)>)>) -> (out: Vec<String>)
    ensures
        pieces::strings(out@) == config::subtable_views(tables@).map_values(
            |t: (Seq<char>, Seq<(Seq<char>, Seq<char>)>)| value_in(t.1, "link"@),
        ),
{
    let ghost f = |t: (Seq<char>, Seq<(Seq<char>, Seq<char>)>)| value_in(t.1, "link"@);
    let ghost want = config::subtable_views(tables@).map_values(f);
    let mut out: Vec<String> = Vec::new();
    let mut i: usize = 0;
    assert(pieces::strings(out@) =~= want.take(0));
    while i < tables.len()
        invariant
            i <= tables@.len(),
            want == config::subtable_views(tables@).map_values(f),
            f == (|t: (Seq<char>, Seq<(Seq<char>, Seq<char>)>)| value_in(t.1, "link"@)),
            pieces::strings(out@) == want.take(i as int),
        decreases tables@.len() - i,
    {
        let link = value_of(&tables[i].1, "link");
        let ghost before = pieces::strings(out@);
        assert(want[i as int] == link@);
        assert(want.take(i + 1) =~= want.take(i as int).push(link@));
        out.push(link);
        assert(pieces::strings(out@) =~= before.push(link@));
        i += 1;
    }
    assert(want.take(want.len() as int) =~= want);
    out
}

/// The form of a quicklink.
fn form(title: &str, action_id: &'static str, name: &str, link: &str, open_with: &str) -> (r:
    ActionResult)
    ensures
        r@ == form_of(title@, action_id@, name@, link@, open_with@),
{
    let mut fields: Vec<FormField> = Vec::new();
    fields.push(FormField::new("Name", name));
    fields.push(FormField::new("Link", link));
    fields.push(FormField::new("Open with (optional)", open_with));
    assert(plugin::filled(fields@) =~= seq![
        Filled { label: "Name"@, value: name@ },
        Filled { label: "Link"@, value: link@ },
        Filled { label: "Open with (optional)"@, value: open_with@ },
    ]);
    ActionResult::RequestForm { title: title.to_owned(), action_id, fields }
}

fn value_at(fields: &Vec<FormField>, i: usize) -> (r: String)
    ensures
        r@ == field_value(plugin::filled(fields@), i as int),
{
    if i < fields.len() {
        assert(plugin::filled(fields@)[i as int] == fields@[i as int]@);
        sanitize_value(fields[i].value.as_str())
    } else {
        let r = String::new();
        assert(r@ =~= Seq::empty());
        r
    }
}

impl Quicklinks {
    #[verifier::type_invariant]
    spec fn prepared(self) -> bool {
        &&& all_ready(self.entries@)
        &&& self.create.of(CREATE_LABEL@)
        &&& self.create.fits()
    }

    /// The quicklinks of the sub-tables; `folders` are the links that are
    /// folders.
    pub fn new(
        subtables: Vec<(String, Vec<(String, String)>)>,
        icons: StockIcons,
        folders: &Vec<String>,
    ) -> (q: Quicklinks)
        ensures
            q@.art == icons@,
            q@.links == order::ranked(
                links_of(
                    config::subtable_views(subtables@),
                    icons@,
                    pieces::strings(folders@),
                ),
                by_name(),
            ),
    {
        let mut entries = entries_of(&subtables, &icons, folders);
        sort_entries(&mut entries);
        Quicklinks { entries, create: Pattern::new(CREATE_LABEL), icons }
    }

    /// How many quicklinks there are.
    pub fn len(&self) -> (n: usize)
        ensures
            n == self@.links.len(),
    {
        self.entries.len()
    }

    /// The row that opens the form for a new quicklink.
    pub fn create_item(&self, score: i32) -> (r: ResultItem)
        ensures
            r@ == create_row(self@.art, score as int),
    {
        ResultItem {
            plugin: ID,
            title: CREATE_LABEL.to_owned(),
            badge: None,
            category: "".to_owned(),
            subtitle: "Quicklink".to_owned(),
            payload: CREATE_PAYLOAD.to_owned(),
            score,
            icon: share_icon(&self.icons.internet),
        }
    }

    /// Where a slug stands; the number of entries when it does not.
    fn place(&self, slug: &str) -> (k: usize)
        ensures
            k <= self.entries@.len(),
            k == slug_at(self@.links, slug@),
    {
        let mut k: usize = 0;
        while k < self.entries.len() && !same(self.entries[k].slug.as_str(), slug)
            invariant
                k <= self.entries@.len(),
                forall|j: int| 0 <= j < k ==> (#[trigger] self@.links[j]).slug != slug@,
            decreases self.entries@.len() - k,
        {
            k += 1;
        }
        proof {
            lemma_slug_at_is(self@.links, slug@, k as int);
        }
        k
    }

    /// A slug that is not taken, made from the name.
    pub fn free_slug(&self, name: &str) -> (r: String)
        ensures
            r@ == free_slug_of(self@.links, name@),
            is_free_slug(self@.links, name@, r@),
            !taken(self@.links, r@),
    {
        let r = self.first_free(name);
        proof {
            law_the_free_slug_is_determined(
                self@.links,
                name@,
                r@,
                free_slug_of(self@.links, name@),
            );
        }
        r
    }

    fn first_free(&self, name: &str) -> (r: String)
        ensures
            is_free_slug(self@.links, name@, r@),
    {
        let key = sanitize_key(name);
        let base = if empty(&key) {
            "link".to_owned()
        } else {
            key
        };
        if self.place(base.as_str()) == self.entries.len() {
            return base;
        }
        let dashed = pieces::concat(base.as_str(), "-");
        let mut n: u128 = 2;
        loop
            invariant
                n >= 2,
                base@ == slug_base(name@),
                taken(self@.links, base@),
                dashed@ == base@ + "-"@,
                self@.links.len() == self.entries@.len(),
                forall|m: nat| 2 <= m < n ==> taken(self@.links, #[trigger] numbered(base@, m)),
            decreases self@.links.len() + 2 - n,
        {
            let digits = numbers::show(n);
            let number = string_of(digits.as_slice());
            let slug = pieces::concat(dashed.as_str(), number.as_str());
            assert(slug@ == numbered(base@, n as nat));
            let count: usize = self.entries.len();
            if self.place(slug.as_str()) == count {
                assert(!taken(self@.links, slug@));
                return slug;
            }
            proof {
                assert forall|m: nat| 2 <= m < n + 1 implies taken(
                    self@.links,
                    #[trigger] numbered(base@, m),
                ) by {
                    if m == n {
                        lemma_slug_at(self@.links, slug@);
                    }
                }
                lemma_numbers_run_out(self@.links, base@, (n + 1) as nat);
            }
            n += 1;
        }
    }

    fn answer_open(&self, slug: &str) -> (r: Reply)
        ensures
            r@ == open_answer(self@.links, slug@),
    {
        let k: usize = self.place(slug);
        if k == self.entries.len() {
            return Reply::just(ActionResult::Done);
        }
        let e = &self.entries[k];
        assert(self@.links[k as int] == e@);
        match placeholder(e.link.as_str()) {
            Some(token) => {
                let prompt = if empty(&token) {
                    DEFAULT_ARG.to_owned()
                } else {
                    token
                };
                Reply::just(ActionResult::RequestText { prompt, action_id: "fill" })
            },
            None => Reply::after(
                Effect::OpenLink { link: e.link.clone(), open_with: e.open_with.clone() },
                ActionResult::Close,
            ),
        }
    }

    /// Puts a quicklink on the shelf.
    fn keep(&mut self, e: Entry)
        requires
            e.ready(),
        ensures
            final(self)@.links == saved(old(self)@.links, e@),
            final(self)@.art == old(self)@.art,
    {
        proof {
            use_type_invariant(&*self);
        }
        let k: usize = self.place(e.slug.as_str());
        let ghost before = self@.links;
        let mut entries: Vec<Entry> = Vec::new();
        std::mem::swap(&mut entries, &mut self.entries);
        if k < entries.len() {
            entries.set(k, e);
            assert(all_links(entries@) =~= before.update(k as int, e@));
        } else {
            entries.push(e);
            assert(all_links(entries@) =~= before.push(e@));
        }
        sort_entries(&mut entries);
        self.entries = entries;
    }

    /// Takes a quicklink off the shelf.
    fn drop_slug(&mut self, slug: &str)
        ensures
            final(self)@.links == without_slug(old(self)@.links, slug@),
            final(self)@.art == old(self)@.art,
    {
        proof {
            use_type_invariant(&*self);
        }
        let ghost all = self@.links;
        let mut rest: Vec<Entry> = Vec::new();
        std::mem::swap(&mut rest, &mut self.entries);
        let mut i: usize = 0;
        let ghost mut seen: int = 0;
        assert(all_links(rest@) =~= without_slug(all.take(0), slug@) + all.skip(0));
        while i < rest.len()
            invariant
                i <= rest@.len(),
                0 <= seen <= all.len(),
                all.len() - seen == rest@.len() - i,
                all_ready(rest@),
                without_slug(all.take(seen), slug@).len() == i,
                all_links(rest@) == without_slug(all.take(seen), slug@) + all.skip(seen),
            decreases rest@.len() - i,
        {
            let ghost kept = without_slug(all.take(seen), slug@);
            let ghost now = all_links(rest@);
            proof {
                assert(all.take(seen + 1).drop_last() =~= all.take(seen));
                assert(all.take(seen + 1).last() == all[seen]);
                assert(now[i as int] == all[seen]);
            }
            if same(rest[i].slug.as_str(), slug) {
                rest.remove(i);
                assert(all_links(rest@) =~= now.remove(i as int));
                assert(all_links(rest@) =~= kept + all.skip(seen + 1));
            } else {
                assert(all_links(rest@) =~= kept.push(all[seen]) + all.skip(seen + 1));
                i += 1;
            }
            proof {
                seen = seen + 1;
            }
        }
        assert(all.take(all.len() as int) =~= all);
        assert(all_links(rest@) =~= without_slug(all, slug@));
        self.entries = rest;
    }
}

/// A plugin that keeps these quicklinks in mind.
pub open spec fn remembering(links: Seq<Link>) -> Memory {
    Memory { apps: Seq::empty(), aliases: Seq::empty(), links }
}

/// The quicklinks of a configuration, in the order they are listed.
pub open spec fn links_on(disk: Disk, art: Art) -> Seq<Link> {
    order::ranked(
        links_of(config::subtables_in(disk.config@, ID@), art, pieces::strings(disk.folders@)),
        by_name(),
    )
}

impl Plugin for Quicklinks {
    open spec fn memory(&self) -> Memory {
        remembering(self@.links)
    }

    open spec fn reloaded(&self, disk: Disk) -> Memory {
        remembering(links_on(disk, self@.art))
    }

    open spec fn indexed(&self, index: Catalogue) -> Memory {
        self.memory()
    }

    open spec fn acted(&self, action_id: Seq<char>, row: Row) -> Memory {
        remembering(
            if action_id == "delete"@ {
                without_slug(self@.links, row.payload)
            } else {
                self@.links
            },
        )
    }

    open spec fn told(&self, action_id: Seq<char>, row: Row, text: Seq<char>) -> Memory {
        self.memory()
    }

    open spec fn formed(
        &self,
        action_id: Seq<char>,
        row: Row,
        fields: Seq<Filled>,
        folder: bool,
    ) -> Memory {
        remembering(
            if field_value(fields, 1).len() == 0 {
                self@.links
            } else {
                saved(
                    self@.links,
                    link_in_form(self@.links, self@.art, action_id, row.payload, fields, folder),
                )
            },
        )
    }

    open spec fn name(&self) -> Seq<char> {
        ID@
    }

    open spec fn found(&self, q: Seq<char>) -> Seq<Row> {
        let rows = link_rows(self@.links, q);
        match fuzzy::name_score(q, CREATE_LABEL@) {
            Some(score) => rows.push(create_row(self@.art, score as int)),
            None => rows,
        }
    }

    open spec fn made(&self, payload: Seq<char>) -> Option<Row> {
        match find_in(self@.links, payload) {
            Some(l) => Some(link_row(l, 0)),
            None => None,
        }
    }

    open spec fn stock(&self) -> Seq<Row> {
        self@.links.map_values(|l: Link| link_row(l, 0))
    }

    open spec fn offered(&self, row: Row) -> Seq<Offer> {
        if row.payload == CREATE_PAYLOAD@ {
            seq![Offer { id: "create"@, label: CREATE_LABEL@ }]
        } else {
            seq![
                Offer { id: "open"@, label: "Open"@ },
                Offer { id: "edit"@, label: "Edit Quicklink\u{2026}"@ },
                Offer { id: "delete"@, label: "Delete Quicklink"@ },
                Offer { id: "create"@, label: "Create Quicklink\u{2026}"@ },
            ]
        }
    }

    open spec fn on_activate(&self, row: Row) -> Answer {
        if row.payload == CREATE_PAYLOAD@ {
            Answer::just(new_form())
        } else {
            open_answer(self@.links, row.payload)
        }
    }

    open spec fn on_action(&self, action_id: Seq<char>, row: Row) -> Answer {
        if action_id == "open"@ {
            open_answer(self@.links, row.payload)
        } else if action_id == "create"@ {
            Answer::just(new_form())
        } else if action_id == "edit"@ {
            match find_in(self@.links, row.payload) {
                Some(l) => Answer::just(
                    form_of("Edit Quicklink"@, "edit"@, l.name, l.link, l.open_with),
                ),
                None => Answer::just(Outcome::Done),
            }
        } else if action_id == "delete"@ {
            Answer::after(
                Deed::Rewrite(Rewriting::RemoveQuicklink { slug: row.payload }),
                Outcome::Done,
            )
        } else {
            Answer::just(Outcome::Done)
        }
    }

    open spec fn on_text(&self, action_id: Seq<char>, row: Row, text: Seq<char>) -> Answer {
        match find_in(self@.links, row.payload) {
            Some(l) => if action_id == "fill"@ {
                Answer::after(
                    Deed::OpenLink {
                        link: links::filled_in(l.link, text),
                        open_with: l.open_with,
                    },
                    Outcome::Close,
                )
            } else {
                Answer::just(Outcome::Done)
            },
            None => Answer::just(Outcome::Done),
        }
    }

    open spec fn form_wants(&self, action_id: Seq<char>, fields: Seq<Filled>) -> Option<Seq<char>> {
        Some(field_value(fields, 1))
    }

    open spec fn on_form(
        &self,
        action_id: Seq<char>,
        row: Row,
        fields: Seq<Filled>,
        folder: bool,
    ) -> Answer {
        form_answer(self@.links, self@.art, action_id, row.payload, fields, folder)
    }

    fn id(&self) -> (r: &'static str) {
        ID
    }

    fn query(&self, q: &str, out: &mut Vec<ResultItem>) {
        proof {
            use_type_invariant(self);
        }
        let query = fold_case(q);
        let ghost start = plugin::rows(out@);
        let ghost ls = self@.links;
        let mut i: usize = 0;
        assert(plugin::rows(out@) =~= start + link_rows(ls.take(0), q@));
        while i < self.entries.len()
            invariant
                i <= self.entries@.len(),
                self.prepared(),
                ls == self@.links,
                query@ == fuzzy::folded(q@),
                plugin::rows(out@) == start + link_rows(ls.take(i as int), q@),
            decreases self.entries@.len() - i,
        {
            let e = &self.entries[i];
            let ghost before = link_rows(ls.take(i as int), q@);
            proof {
                assert(e.ready());
                assert(ls[i as int] == e@);
                assert(ls.take(i + 1).drop_last() =~= ls.take(i as int));
                assert(ls.take(i + 1).last() == ls[i as int]);
            }
            if let Some(score) = e.pattern.score(query.as_slice()) {
                let ghost so_far = plugin::rows(out@);
                let item = e.item(score);
                out.push(item);
                proof {
                    assert(plugin::rows(out@) =~= so_far.push(item@));
                    assert(plugin::rows(out@) =~= start + before.push(item@));
                }
            }
            i += 1;
        }
        assert(ls.take(ls.len() as int) =~= ls);
        if let Some(score) = self.create.score(query.as_slice()) {
            let ghost so_far = plugin::rows(out@);
            let item = self.create_item(score);
            out.push(item);
            proof {
                assert(plugin::rows(out@) =~= so_far.push(item@));
                assert(plugin::rows(out@) =~= start + link_rows(ls, q@).push(item@));
            }
        }
    }

    fn item_for(&self, payload: &str) -> (r: Option<ResultItem>) {
        let k: usize = self.place(payload);
        if k == self.entries.len() {
            return None;
        }
        assert(self@.links[k as int] == self.entries@[k as int]@);
        Some(self.entries[k].item(0))
    }

    fn browse(&self, limit: usize, out: &mut Vec<ResultItem>) {
        let ghost start = plugin::rows(out@);
        let ghost stock = self.stock();
        let before: usize = out.len();
        let mut i: usize = 0;
        assert(plugin::rows(out@) =~= plugin::browsed(start, stock.take(0), limit as nat));
        while i < self.entries.len()
            invariant
                i <= self.entries@.len(),
                stock == self.stock(),
                before == start.len(),
                before <= out@.len(),
                plugin::rows(out@) == plugin::browsed(start, stock.take(i as int), limit as nat),
            decreases self.entries@.len() - i,
        {
            let e = &self.entries[i];
            proof {
                assert(stock.take(i + 1).drop_last() =~= stock.take(i as int));
                assert(stock.take(i + 1).last() == stock[i as int]);
                assert(stock[i as int] == link_row(e@, 0));
            }
            if out.len() - before < limit && !is_present(out, ID, e.slug.as_str()) {
                let ghost so_far = plugin::rows(out@);
                let item = e.item(0);
                out.push(item);
                assert(plugin::rows(out@) =~= so_far.push(item@));
            }
            i += 1;
        }
        assert(stock.take(stock.len() as int) =~= stock);
    }

    fn refresh(&mut self, disk: &Disk)
        ensures
            final(self)@.art == old(self)@.art,
    {
        proof {
            use_type_invariant(&*self);
        }
        let tables = disk.config.subtables(ID);
        let mut entries = entries_of(&tables, &self.icons, &disk.folders);
        sort_entries(&mut entries);
        self.entries = entries;
    }

    fn index_arrived(&mut self, index: &AppIndex)
        ensures
            final(self)@.art == old(self)@.art,
    {
    }

    fn activate(&self, item: &ResultItem) -> (r: Reply) {
        if same(item.payload.as_str(), CREATE_PAYLOAD) {
            return Reply::just(form("New Quicklink", "create", "", "", ""));
        }
        self.answer_open(item.payload.as_str())
    }

    fn actions(&self, item: &ResultItem) -> (r: Vec<Action>) {
        let mut r: Vec<Action> = Vec::new();
        if same(item.payload.as_str(), CREATE_PAYLOAD) {
            r.push(Action { id: "create", label: CREATE_LABEL.to_owned() });
        } else {
            r.push(Action { id: "open", label: "Open".to_owned() });
            r.push(Action { id: "edit", label: "Edit Quicklink\u{2026}".to_owned() });
            r.push(Action { id: "delete", label: "Delete Quicklink".to_owned() });
            r.push(Action { id: "create", label: "Create Quicklink\u{2026}".to_owned() });
        }
        assert(plugin::offers(r@) =~= self.offered(item@));
        r
    }

    fn run_action(&mut self, action_id: &str, item: &ResultItem) -> (r: Reply)
        ensures
            final(self)@.art == old(self)@.art,
    {
        proof {
            reveal_strlit("open");
            reveal_strlit("create");
            reveal_strlit("edit");
            reveal_strlit("delete");
            assert("create"@[0] == 'c' && "delete"@[0] == 'd');
        }
        if same(action_id, "open") {
            self.answer_open(item.payload.as_str())
        } else if same(action_id, "create") {
            Reply::just(form("New Quicklink", "create", "", "", ""))
        } else if same(action_id, "edit") {
            let k: usize = self.place(item.payload.as_str());
            if k == self.entries.len() {
                return Reply::just(ActionResult::Done);
            }
            let e = &self.entries[k];
            assert(self@.links[k as int] == e@);
            Reply::just(
                form(
                    "Edit Quicklink",
                    "edit",
                    e.name.as_str(),
                    e.link.as_str(),
                    e.open_with.as_str(),
                ),
            )
        } else if same(action_id, "delete") {
            self.drop_slug(item.payload.as_str());
            Reply::after(
                Effect::Rewrite(Change::RemoveQuicklink { slug: item.payload.clone() }),
                ActionResult::Done,
            )
        } else {
            Reply::just(ActionResult::Done)
        }
    }

    fn submit_text(&mut self, action_id: &str, item: &ResultItem, text: &str) -> (r: Reply)
        ensures
            final(self)@.art == old(self)@.art,
    {
        if !same(action_id, "fill") {
            return Reply::just(ActionResult::Done);
        }
        let k: usize = self.place(item.payload.as_str());
        if k == self.entries.len() {
            return Reply::just(ActionResult::Done);
        }
        let e = &self.entries[k];
        assert(self@.links[k as int] == e@);
        Reply::after(
            Effect::OpenLink {
                link: fill(e.link.as_str(), text),
                open_with: e.open_with.clone(),
            },
            ActionResult::Close,
        )
    }

    fn form_path(&self, action_id: &str, fields: &Vec<FormField>) -> (r: Option<String>) {
        Some(value_at(fields, 1))
    }

    fn submit_form(
        &mut self,
        action_id: &str,
        item: &ResultItem,
        fields: &Vec<FormField>,
        folder: bool,
    ) -> (r: Reply)
        ensures
            final(self)@.art == old(self)@.art,
    {
        let name = value_at(fields, 0);
        let link = value_at(fields, 1);
        let open_with = value_at(fields, 2);
        let edit = same(action_id, "edit");
        // Without a target the form comes back, with what was typed.
        if empty(&link) {
            let id: &'static str = if edit {
                "edit"
            } else {
                "create"
            };
            return Reply::just(
                form("Link is required", id, name.as_str(), link.as_str(), open_with.as_str()),
            );
        }
        let name = if empty(&name) {
            link.clone()
        } else {
            name
        };
        // An edited quicklink keeps its slug, so that its launch history stays.
        let slug = if edit && self.place(item.payload.as_str()) < self.entries.len() {
            item.payload.clone()
        } else {
            self.free_slug(name.as_str())
        };
        let icon = self.icons.pick(link.as_str(), folder);
        let e = Entry::new(slug.clone(), name.clone(), link.clone(), open_with.clone(), icon);
        self.keep(e);
        Reply::after(
            Effect::Rewrite(Change::SaveQuicklink { slug, name, link, open_with }),
            ActionResult::Done,
        )
    }
}

/// What the plugin shows and answers follows from what it keeps in mind, and
/// from its icons.
pub proof fn law_quicklinks_go_by_their_memory(
    a: &Quicklinks,
    b: &Quicklinks,
    q: Seq<char>,
    row: Row,
    action_id: Seq<char>,
)
    requires
        a.memory() == b.memory(),
        a@.art == b@.art,
    ensures
        a.found(q) == b.found(q),
        a.made(q) == b.made(q),
        a.stock() == b.stock(),
        a.offered(row) == b.offered(row),
        a.on_activate(row) == b.on_activate(row),
        a.on_action(action_id, row) == b.on_action(action_id, row),
{
    assert(a@ == b@);
}

/// Every quicklink row says where it comes from.
pub proof fn law_quicklink_rows_are_own(p: &Quicklinks)
    ensures
        plugin::owns_its_rows(p),
{
    assert forall|q: Seq<char>| plugin::all_of(#[trigger] p.found(q), p.name()) by {
        lemma_link_rows_are_own(p@.links, q);
    }
    assert forall|payload: Seq<char>| (#[trigger] p.made(payload)) matches Some(row) ==> row.plugin
        == p.name() && row.payload == payload by {
        lemma_slug_at(p@.links, payload);
    }
}

} // verus!
