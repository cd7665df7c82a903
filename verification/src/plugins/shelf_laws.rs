//! What holds of quicklinks as rows: what a query finds, how a link is opened,
//! what is offered for it, and what its form does.
use vstd::prelude::*;
use vstd::string::*;
use vstd::utf8::*;

use crate::appindex::Catalogue;
use crate::config;
use crate::numbers;
use crate::order;
use crate::pieces;
use crate::plugin::{Answer, Deed, Disk, Filled, Offer, Outcome, Plugin, Row};
use crate::plugins::links;
use crate::plugins::quicklink_laws;
use crate::plugins::quicklinks::{self, Art, Link, Quicklinks};
use crate::plugins::search_laws;
use crate::rewrite::{self, Rewriting};
use crate::text;
use crate::text_laws;

verus! {

/// `l` is the quicklink stored under a slug: the first that has it.
pub open spec fn stored(links: Seq<Link>, slug: Seq<char>, l: Link) -> bool {
    exists|i: int|
        0 <= i < links.len() && #[trigger] links[i] == l && l.slug == slug && forall|j: int|
            0 <= j < i ==> (#[trigger] links[j]).slug != slug
}

/// No quicklink is stored under a slug.
pub open spec fn unknown(links: Seq<Link>, slug: Seq<char>) -> bool {
    forall|i: int| 0 <= i < links.len() ==> (#[trigger] links[i]).slug != slug
}

proof fn lemma_find_in(links: Seq<Link>, slug: Seq<char>)
    ensures
        quicklinks::find_in(links, slug) is None <==> unknown(links, slug),
        forall|l: Link|
            quicklinks::find_in(links, slug) == Some(l) <==> #[trigger] stored(links, slug, l),
{
    quicklinks::lemma_slug_at(links, slug);
    let k = quicklinks::slug_at(links, slug);
    if k < links.len() {
        assert(links[k].slug == slug);
    }
    assert forall|l: Link|
        quicklinks::find_in(links, slug) == Some(l) <==> #[trigger] stored(links, slug, l) by {
        if stored(links, slug, l) {
            let i = choose|i: int|
                0 <= i < links.len() && #[trigger] links[i] == l && l.slug == slug && forall|j: int|
                    0 <= j < i ==> (#[trigger] links[j]).slug != slug;
            quicklinks::lemma_slug_at_is(links, slug, i);
        }
    }
}

// ---- what a query finds ----------------------------------------------------------------------

/// A row shows a quicklink.
pub open spec fn shows(row: Row, l: Link) -> bool {
    &&& row.plugin == "quicklinks"@
    &&& row.payload == l.slug
    &&& row.title == l.name
    &&& row.icon == l.icon
    &&& row.subtitle == "Quicklink"@
    &&& row.category.len() == 0
    &&& row.badge is None
}

/// `rows` are those of the quicklinks at the positions `at`: all whose names
/// the query can be placed on and no others, in their order.
pub open spec fn finds(rows: Seq<Row>, at: Seq<int>, links: Seq<Link>, q: Seq<char>) -> bool {
    &&& at.len() == rows.len()
    &&& search_laws::ascending(at, links.len() as int)
    &&& forall|i: int|
        0 <= i < rows.len() ==> shows(#[trigger] rows[i], links[at[i]]) && search_laws::worth(
            q,
            links[at[i]].name,
            rows[i].score,
        )
    &&& forall|k: int| #[trigger]
        at.contains(k) <==> 0 <= k < links.len() && search_laws::named(q, links[k].name)
}

proof fn lemma_link_rows(links: Seq<Link>, q: Seq<char>) -> (at: Seq<int>)
    ensures
        finds(quicklinks::link_rows(links, q), at, links, q),
    decreases links.len(),
{
    let rows = quicklinks::link_rows(links, q);
    if links.len() == 0 {
        Seq::empty()
    } else {
        reveal_strlit("");
        let front = links.drop_last();
        let before = quicklinks::link_rows(front, q);
        let so_far = lemma_link_rows(front, q);
        let l = links.last();
        let n = front.len() as int;
        search_laws::lemma_name_score(q, l.name);
        match crate::fuzzy::name_score(q, l.name) {
            Some(score) => {
                let at = so_far.push(n);
                assert(rows == before.push(quicklinks::link_row(l, score as int)));
                assert forall|i: int| 0 <= i < rows.len() implies shows(
                    #[trigger] rows[i],
                    links[at[i]],
                ) && search_laws::worth(q, links[at[i]].name, rows[i].score) by {
                    if i < before.len() {
                        assert(rows[i] == before[i]);
                        assert(links[at[i]] == front[so_far[i]]);
                    }
                }
                assert forall|k: int| #[trigger]
                    at.contains(k) <==> 0 <= k < links.len() && search_laws::named(
                    q,
                    links[k].name,
                ) by {
                    if at.contains(k) {
                        let i = choose|i: int| 0 <= i < at.len() && at[i] == k;
                        if i < so_far.len() {
                            assert(so_far[i] == k);
                            assert(so_far.contains(k));
                        }
                    }
                    if 0 <= k < n && search_laws::named(q, links[k].name) {
                        assert(front[k] == links[k]);
                        assert(so_far.contains(k));
                        let i = choose|i: int| 0 <= i < so_far.len() && so_far[i] == k;
                        assert(at[i] == k);
                    }
                    if k == n {
                        assert(at[so_far.len() as int] == k);
                    }
                }
                at
            },
            None => {
                assert(rows == before);
                assert forall|i: int| 0 <= i < rows.len() implies shows(
                    #[trigger] rows[i],
                    links[so_far[i]],
                ) && search_laws::worth(q, links[so_far[i]].name, rows[i].score) by {
                    assert(links[so_far[i]] == front[so_far[i]]);
                }
                so_far
            },
        }
    }
}

/// A query finds every quicklink whose name it can be placed on and no other,
/// each once and in order, worth what the name is worth; behind them stands
/// the row that makes a new one, exactly if the query can be placed on its
/// label.
pub proof fn law_quicklinks_are_found_by_name(p: &Quicklinks, q: Seq<char>) -> (at: Seq<int>)
    ensures
        if search_laws::named(q, "Create Quicklink"@) {
            &&& p.found(q).len() > 0
            &&& finds(p.found(q).drop_last(), at, p@.links, q)
            &&& p.found(q).last().payload == "!create"@
            &&& p.found(q).last().title == "Create Quicklink"@
            &&& p.found(q).last().plugin == "quicklinks"@
            &&& p.found(q).last().icon == p@.art.internet
            &&& p.found(q).last().subtitle == "Quicklink"@
            &&& p.found(q).last().category == ""@
            &&& p.found(q).last().badge is None
            &&& search_laws::worth(q, "Create Quicklink"@, p.found(q).last().score)
        } else {
            finds(p.found(q), at, p@.links, q)
        },
{
    search_laws::lemma_name_score(q, "Create Quicklink"@);
    let at = lemma_link_rows(p@.links, q);
    let rows = quicklinks::link_rows(p@.links, q);
    if search_laws::named(q, "Create Quicklink"@) {
        assert(p.found(q).drop_last() =~= rows);
    }
    at
}

/// Every quicklink is listed, in order, and made again by its slug.
pub proof fn law_every_quicklink_is_listed(p: &Quicklinks, slug: Seq<char>)
    ensures
        p.stock().len() == p@.links.len(),
        forall|k: int|
            0 <= k < p@.links.len() ==> shows(#[trigger] p.stock()[k], p@.links[k])
                && p.stock()[k].score == 0,
        match p.made(slug) {
            Some(row) => row.score == 0 && exists|l: Link| #[trigger]
                stored(p@.links, slug, l) && shows(row, l),
            None => unknown(p@.links, slug),
        },
        p.name() == "quicklinks"@,
        p.memory().links == p@.links,
{
    reveal_strlit("");
    lemma_find_in(p@.links, slug);
    if let Some(l) = quicklinks::find_in(p@.links, slug) {
        assert(stored(p@.links, slug, l));
    }
}

// ---- opening -----------------------------------------------------------------------------------

/// A link with a place for an argument: a `{` and, somewhere behind it, a `}`.
pub open spec fn takes_argument(link: Seq<char>) -> bool {
    exists|i: int, j: int| 0 <= i < j < link.len() && #[trigger] link[i] == '{' && #[trigger] link[j] == '}'
}

/// `token` stands in the first braces of a link.
pub open spec fn first_token(link: Seq<char>, token: Seq<char>) -> bool {
    exists|a: Seq<char>, b: Seq<char>|
        #![trigger a + seq!['{'] + token + seq!['}'] + b]
        link == a + seq!['{'] + token + seq!['}'] + b && !a.contains('{') && !token.contains('}')
}

pub proof fn lemma_token_in(link: Seq<char>)
    ensures
        links::token_in(link) is Some <==> takes_argument(link),
        links::token_in(link) matches Some(token) ==> first_token(link, token),
{
    pieces::lemma_first_of(link, '{');
    let start = pieces::first_of(link, '{');
    let rest = link.skip(start + 1);
    pieces::lemma_first_of(rest, '}');
    let end = pieces::first_of(rest, '}');
    if takes_argument(link) {
        let (i, j) = choose|i: int, j: int|
            0 <= i < j < link.len() && #[trigger] link[i] == '{' && #[trigger] link[j] == '}';
        assert(start <= i);
        assert(rest[j - start - 1] == '}');
    }
    if start < link.len() && end < rest.len() {
        assert(link[start] == '{');
        assert(link[start + 1 + end] == '}');
        assert(takes_argument(link));
        let a = link.take(start);
        let token = rest.take(end);
        let b = rest.skip(end + 1);
        assert(link =~= a + seq!['{'] + token + seq!['}'] + b);
        if a.contains('{') {
            let k = choose|k: int| 0 <= k < a.len() && a[k] == '{';
            assert(link[k] == '{');
        }
        if token.contains('}') {
            let k = choose|k: int| 0 <= k < token.len() && token[k] == '}';
            assert(rest[k] == '}');
        }
        assert(first_token(link, token));
    }
}

/// A quicklink without a place for an argument is opened at once, as it is
/// stored and with the program stored with it. One that takes an argument asks
/// for it first, and opens nothing before it is given. A slug that is not
/// there opens nothing. "Open" does what Enter does.
pub proof fn law_opening_a_quicklink(p: &Quicklinks, row: Row, l: Link)
    requires
        row.payload != "!create"@,
    ensures
        p.on_action("open"@, row) == p.on_activate(row),
        unknown(p@.links, row.payload) ==> p.on_activate(row) == Answer::just(Outcome::Done),
        stored(p@.links, row.payload, l) && !takes_argument(l.link) ==> p.on_activate(row).effect
            == (Deed::OpenLink { link: l.link, open_with: l.open_with }) && p.on_activate(
            row,
        ).outcome(true) == Outcome::Close && p.on_activate(row).outcome(false) == Outcome::Close,
        stored(p@.links, row.payload, l) && takes_argument(l.link) ==> p.on_activate(row).effect
            == Deed::Nothing && match p.on_activate(row).result {
            Outcome::RequestText { prompt, action_id } => action_id == "fill"@ && (exists|
                token: Seq<char>,
            | #[trigger]
                first_token(l.link, token) && prompt == if token.len() == 0 {
                    "query"@
                } else {
                    token
                }),
            _ => false,
        },
{
    lemma_find_in(p@.links, row.payload);
    lemma_token_in(l.link);
}

/// The argument handed in opens the quicklink stored under the row's slug, with
/// its argument in place and with the same program that would open it without
/// one. Other text, or text for a slug that is not there, does nothing; and
/// whatever is handed in, no quicklink changes.
pub proof fn law_the_argument_opens_the_stored_link(
    p: &Quicklinks,
    row: Row,
    id: Seq<char>,
    text: Seq<char>,
    l: Link,
)
    ensures
        stored(p@.links, row.payload, l) ==> p.on_text("fill"@, row, text).effect == (
        Deed::OpenLink { link: links::filled_in(l.link, text), open_with: l.open_with }) && p.on_text(
            "fill"@,
            row,
            text,
        ).result == Outcome::Close,
        unknown(p@.links, row.payload) || id != "fill"@ ==> p.on_text(id, row, text)
            == Answer::just(Outcome::Done),
        p.told(id, row, text).links == p@.links,
{
    lemma_find_in(p@.links, row.payload);
    if !unknown(p@.links, row.payload) {
        assert(quicklinks::find_in(p@.links, row.payload) is Some);
    }
}

/// Whatever way a quicklink is opened, it is opened with its own program.
pub proof fn law_links_open_with_their_own_program(
    p: &Quicklinks,
    row: Row,
    id: Seq<char>,
    text: Seq<char>,
)
    ensures
        p.on_activate(row).effect matches Deed::OpenLink { link, open_with } ==> exists|l: Link| #[trigger]
            stored(p@.links, row.payload, l) && open_with == l.open_with && link == l.link,
        p.on_action(id, row).effect matches Deed::OpenLink { link, open_with } ==> exists|l: Link| #[trigger]
            stored(p@.links, row.payload, l) && open_with == l.open_with && link == l.link,
        p.on_text(id, row, text).effect matches Deed::OpenLink { link, open_with } ==> exists|
            l: Link,
        | #[trigger]
            stored(p@.links, row.payload, l) && open_with == l.open_with && link
                == links::filled_in(l.link, text),
{
    lemma_find_in(p@.links, row.payload);
    if let Some(l) = quicklinks::find_in(p@.links, row.payload) {
        assert(stored(p@.links, row.payload, l));
    }
}

// ---- what is offered ---------------------------------------------------------------------------

proof fn lemma_ids()
    ensures
        "open"@.len() == 4,
        "edit"@.len() == 4,
        "open"@ != "edit"@,
        "delete"@.len() == 6,
        "create"@.len() == 6,
        "create"@ != "delete"@,
{
    reveal_strlit("open");
    reveal_strlit("edit");
    reveal_strlit("delete");
    reveal_strlit("create");
    assert("open"@[0] != "edit"@[0]);
    assert("create"@[0] != "delete"@[0]);
}

/// A quicklink can be opened, edited and deleted, and from any row a new one
/// can be made; from the row that makes a new one, nothing else. Opening comes
/// first, and each action is offered once.
pub proof fn law_what_is_offered_for_a_quicklink(p: &Quicklinks, row: Row)
    ensures
        search_laws::offers_action(p.offered(row), "create"@),
        search_laws::offers_action(p.offered(row), "open"@) <==> row.payload != "!create"@,
        search_laws::offers_action(p.offered(row), "edit"@) <==> row.payload != "!create"@,
        search_laws::offers_action(p.offered(row), "delete"@) <==> row.payload != "!create"@,
        row.payload != "!create"@ ==> p.offered(row)[0].id == "open"@,
        forall|i: int, j: int|
            0 <= i < j < p.offered(row).len() ==> (#[trigger] p.offered(row)[i]).id != (
            #[trigger] p.offered(row)[j]).id,
{
    lemma_ids();
    let o = p.offered(row);
    if row.payload == "!create"@ {
        assert(o[0].id == "create"@);
    } else {
        assert(o[0].id == "open"@);
        assert(o[1].id == "edit"@);
        assert(o[2].id == "delete"@);
        assert(o[3].id == "create"@);
    }
}

/// The three lines of a quicklink's form hold these values.
pub open spec fn holds(
    fields: Seq<Filled>,
    name: Seq<char>,
    link: Seq<char>,
    open_with: Seq<char>,
) -> bool {
    &&& fields.len() == 3
    &&& fields[0] == (Filled { label: "Name"@, value: name })
    &&& fields[1] == (Filled { label: "Link"@, value: link })
    &&& fields[2] == (Filled { label: "Open with (optional)"@, value: open_with })
}

/// Editing asks for the stored quicklink's own name, link and program; making
/// a new one asks for empty lines, from the panel as from the row.
pub proof fn law_forms_start_from_what_is_stored(p: &Quicklinks, row: Row, l: Link, new: Row)
    requires
        stored(p@.links, row.payload, l),
        new.payload == "!create"@,
    ensures
        match p.on_action("edit"@, row).result {
            Outcome::RequestForm { action_id, fields, .. } => action_id == "edit"@ && holds(
                fields,
                l.name,
                l.link,
                l.open_with,
            ),
            _ => false,
        },
        p.on_action("edit"@, row).effect == Deed::Nothing,
        match p.on_action("create"@, row).result {
            Outcome::RequestForm { action_id, fields, .. } => action_id == "create"@ && holds(
                fields,
                Seq::empty(),
                Seq::empty(),
                Seq::empty(),
            ),
            _ => false,
        },
        p.on_activate(new) == p.on_action("create"@, row),
        p.on_action("create"@, row).effect == Deed::Nothing,
{
    lemma_ids();
    lemma_find_in(p@.links, row.payload);
    reveal_strlit("");
    assert(""@ =~= Seq::<char>::empty());
}

/// A value of a form as it is taken: without single quotes, control characters
/// and the white space around it; empty where the form has no such line.
pub open spec fn taken(fields: Seq<Filled>, i: int) -> Seq<char> {
    if 0 <= i < fields.len() {
        text::trimmed(
            fields[i].value.filter(|c: char| c != '\'' && !text::is_control(c)),
        )
    } else {
        Seq::empty()
    }
}

pub proof fn lemma_without_quotes(s: Seq<char>)
    ensures
        rewrite::without_quotes(s) == s.filter(|c: char| c != '\'' && !text::is_control(c)),
    decreases s.len(),
{
    reveal(Seq::filter);
    if s.len() > 0 {
        lemma_without_quotes(s.drop_last());
    }
}

proof fn lemma_field(fields: Seq<Filled>, i: int)
    ensures
        quicklinks::field_value(fields, i) == taken(fields, i),
{
    if 0 <= i < fields.len() {
        lemma_without_quotes(fields[i].value);
    }
}

/// A form without a link comes back with what was typed, for the action it was
/// for, and nothing is kept or written.
pub proof fn law_a_form_without_a_link_comes_back(
    p: &Quicklinks,
    id: Seq<char>,
    row: Row,
    fields: Seq<Filled>,
    folder: bool,
)
    requires
        taken(fields, 1).len() == 0,
    ensures
        match p.on_form(id, row, fields, folder).result {
            Outcome::RequestForm { action_id, fields: back, .. } => (id == "edit"@ || id
                == "create"@ ==> action_id == id) && holds(
                back,
                taken(fields, 0),
                Seq::empty(),
                taken(fields, 2),
            ),
            _ => false,
        },
        p.on_form(id, row, fields, folder).effect == Deed::Nothing,
        p.formed(id, row, fields, folder) == p.memory(),
{
    lemma_ids();
    lemma_field(fields, 0);
    lemma_field(fields, 1);
    lemma_field(fields, 2);
    assert(taken(fields, 1) =~= Seq::<char>::empty());
}

/// A form with a link is written to the configuration as it was filled in: the
/// link, the program, and the name, which is the link where none was given. It
/// goes under the row's own slug when a quicklink that is there is edited, and
/// else under one that no quicklink has. What is kept in mind has the same
/// quicklink under the same slug, and every other as before.
pub proof fn law_a_form_is_saved_as_filled_in(
    p: &Quicklinks,
    id: Seq<char>,
    row: Row,
    fields: Seq<Filled>,
    folder: bool,
    other: Link,
)
    requires
        taken(fields, 1).len() > 0,
        quicklink_laws::unique(p@.links),
    ensures
        match p.on_form(id, row, fields, folder).effect {
            Deed::Rewrite(Rewriting::SaveQuicklink { slug, name, link, open_with }) => {
                &&& link == taken(fields, 1)
                &&& open_with == taken(fields, 2)
                &&& name == if taken(fields, 0).len() > 0 {
                    taken(fields, 0)
                } else {
                    taken(fields, 1)
                }
                &&& if id == "edit"@ && !unknown(p@.links, row.payload) {
                    slug == row.payload
                } else {
                    unknown(p@.links, slug)
                }
                &&& p.formed(id, row, fields, folder).links.contains(
                    Link { slug, name, link, open_with, icon: p@.art.of(link, folder) },
                )
                &&& other.slug != slug ==> (p.formed(id, row, fields, folder).links.contains(other)
                    <==> p@.links.contains(other))
            },
            _ => false,
        },
        p.on_form(id, row, fields, folder).result == Outcome::Done,
        quicklink_laws::unique(p.formed(id, row, fields, folder).links),
        order::in_order(p.formed(id, row, fields, folder).links, quicklinks::by_name()),
        p.form_wants(id, fields) == Some(taken(fields, 1)),
{
    lemma_field(fields, 0);
    lemma_field(fields, 1);
    lemma_field(fields, 2);
    lemma_find_in(p@.links, row.payload);
    let l = quicklinks::link_in_form(p@.links, p@.art, id, row.payload, fields, folder);
    lemma_find_in(p@.links, l.slug);
    if !(id == "edit"@ && quicklinks::taken(p@.links, row.payload)) {
        quicklink_laws::law_a_free_slug_is_found(p@.links, l.name);
    }
    let new = quicklinks::saved(p@.links, l);
    let far = if other.slug != l.slug {
        other
    } else {
        Link { slug: l.slug.push('x'), ..other }
    };
    if far != other {
        assert(far.slug.len() != l.slug.len());
    }
    quicklink_laws::law_saving_changes_one_quicklink(p@.links, l, far);
    quicklink_laws::lemma_find_in(new, l);
    if other.slug != l.slug {
        quicklink_laws::lemma_find_in(new, other);
        quicklink_laws::lemma_find_in(p@.links, other);
    }
}

/// Deleting takes the row's own quicklink out of the configuration and out of
/// mind, and leaves every other. No other action of the panel changes any.
pub proof fn law_deleting_takes_the_row_s_own_quicklink(
    p: &Quicklinks,
    row: Row,
    l: Link,
    id: Seq<char>,
)
    ensures
        p.on_action("delete"@, row).effect == Deed::Rewrite(
            Rewriting::RemoveQuicklink { slug: row.payload },
        ),
        p.on_action("delete"@, row).result == Outcome::Done,
        p.acted("delete"@, row).links.contains(l) <==> p@.links.contains(l) && l.slug
            != row.payload,
        p.acted("delete"@, row).links == p@.links.filter(|l: Link| l.slug != row.payload),
        id != "delete"@ ==> p.acted(id, row).links == p@.links && !(p.on_action(
            id,
            row,
        ).effect is Rewrite),
{
    lemma_ids();
    quicklink_laws::law_deleting_removes_one_quicklink(p@.links, row.payload, l);
    lemma_without_slug(p@.links, row.payload);
}

proof fn lemma_without_slug(links: Seq<Link>, slug: Seq<char>)
    ensures
        quicklinks::without_slug(links, slug) == links.filter(|l: Link| l.slug != slug),
    decreases links.len(),
{
    reveal(Seq::filter);
    if links.len() > 0 {
        lemma_without_slug(links.drop_last(), slug);
    }
}

// ---- links with a place for an argument --------------------------------------------------------

/// The argument takes the place of the first token of a link, and of every
/// other place where the same token stands: percent-encoded where the link is
/// a URL, and as it is in a path. What stands around it stays.
pub proof fn law_the_argument_takes_the_place_of_the_token(
    a: Seq<char>,
    token: Seq<char>,
    b: Seq<char>,
    value: Seq<char>,
)
    requires
        !a.contains('{'),
        !token.contains('}'),
    ensures
        ({
            let held = seq!['{'] + token + seq!['}'];
            let link = a + held + b;
            let v = if pieces::holds(link, "://"@) {
                links::percent_encoded(encode_utf8(value))
            } else {
                value
            };
            &&& links::token_in(link) == Some(token)
            &&& links::filled_in(link, value) == a + v + pieces::replaced(b, held, v)
            &&& !pieces::holds(b, held) ==> links::filled_in(link, value) == a + v + b
        }),
{
    let held = seq!['{'] + token + seq!['}'];
    let link = a + held + b;
    let n = a.len() as int;
    assert(link[n] == '{');
    assert forall|i: int| 0 <= i < n implies link[i] != '{' by {
        assert(link[i] == a[i]);
        assert(a.contains(a[i]));
    }
    pieces::lemma_first_of_is(link, '{', n);
    let rest = link.skip(n + 1);
    let m = token.len() as int;
    assert(rest =~= token + seq!['}'] + b);
    assert(rest[m] == '}');
    assert forall|i: int| 0 <= i < m implies rest[i] != '}' by {
        assert(rest[i] == token[i]);
        assert(token.contains(token[i]));
    }
    pieces::lemma_first_of_is(rest, '}', m);
    assert(rest.take(m) =~= token);
    assert(links::braced(token) == held);
    let v = if pieces::holds(link, "://"@) {
        links::percent_encoded(encode_utf8(value))
    } else {
        value
    };
    assert forall|i: int| 0 <= i < n implies !(#[trigger] pieces::stands_at(link, held, i)) by {
        if pieces::stands_at(link, held, i) {
            assert(link.subrange(i, i + held.len())[0] == link[i]);
            assert(held[0] == '{');
        }
    }
    text_laws::law_replacing_goes_from_the_left(a, held, b, v);
}

/// In a URL letters, digits, `-`, `_`, `.` and `~` stand for themselves; any
/// other byte is a percent sign and its two digits in base sixteen, the higher
/// first and in capitals.
pub proof fn law_bytes_in_a_url(b: u8)
    ensures
        ({
            let c = b as char;
            let plain = 'a' <= c <= 'z' || 'A' <= c <= 'Z' || '0' <= c <= '9' || c == '-' || c
                == '_' || c == '.' || c == '~';
            &&& plain ==> links::percent_encoded(seq![b]) == seq![c]
            &&& !plain ==> {
                let e = links::percent_encoded(seq![b]);
                &&& e.len() == 3
                &&& e[0] == '%'
                &&& in_base_sixteen(e[1], b as int / 16)
                &&& in_base_sixteen(e[2], b as int % 16)
            }
        }),
{
    reveal_with_fuel(links::percent_encoded, 2);
    assert(seq![b].drop_last() =~= Seq::<u8>::empty());
    assert(links::percent_encoded(seq![b]) =~= links::encoded(b));
}

/// The digit of a number below sixteen.
pub open spec fn in_base_sixteen(c: char, n: int) -> bool {
    if n < 10 {
        c as int == 0x30 + n
    } else {
        c as int == 0x41 + n - 10
    }
}

// ---- from the configuration --------------------------------------------------------------------

/// `v` is what the first entry with a key holds, without the white space
/// around it; nothing where no entry has the key.
pub open spec fn set_to(entries: Seq<(Seq<char>, Seq<char>)>, key: Seq<char>, v: Seq<char>) -> bool {
    (exists|i: int|
        0 <= i < entries.len() && (#[trigger] entries[i]).0 == key && v == text::trimmed(
            entries[i].1,
        ) && forall|j: int| 0 <= j < i ==> (#[trigger] entries[j]).0 != key) || (v.len() == 0
        && forall|i: int| 0 <= i < entries.len() ==> (#[trigger] entries[i]).0 != key)
}

proof fn lemma_value_in(entries: Seq<(Seq<char>, Seq<char>)>, key: Seq<char>)
    ensures
        set_to(entries, key, quicklinks::value_in(entries, key)),
    decreases entries.len(),
{
    let v = quicklinks::value_in(entries, key);
    if entries.len() > 0 {
        if entries[0].0 == key {
            assert(entries[0].0 == key);
        } else {
            let t = entries.drop_first();
            lemma_value_in(t, key);
            if exists|i: int|
                0 <= i < t.len() && (#[trigger] t[i]).0 == key && v == text::trimmed(t[i].1)
                    && forall|j: int| 0 <= j < i ==> (#[trigger] t[j]).0 != key {
                let i = choose|i: int|
                    0 <= i < t.len() && (#[trigger] t[i]).0 == key && v == text::trimmed(t[i].1)
                        && forall|j: int| 0 <= j < i ==> (#[trigger] t[j]).0 != key;
                assert(entries[i + 1] == t[i]);
                assert forall|j: int| 0 <= j < i + 1 implies (#[trigger] entries[j]).0 != key by {
                    if j > 0 {
                        assert(t[j - 1] == entries[j]);
                    }
                }
            } else {
                assert forall|i: int| 0 <= i < entries.len() implies (#[trigger] entries[i]).0
                    != key by {
                    if i > 0 {
                        assert(t[i - 1] == entries[i]);
                    }
                }
            }
        }
    }
}

/// A sub-table is a quicklink exactly if it has a link. It goes by its slug,
/// and by that for a name too where it has none; its program is the one it
/// names, or none. Its picture is that of the internet for a URL, of a folder
/// for a folder, and of a program for anything else.
pub proof fn law_a_table_with_a_link_is_a_quicklink(
    table: (Seq<char>, Seq<(Seq<char>, Seq<char>)>),
    art: Art,
    folders: Seq<Seq<char>>,
)
    ensures
        match quicklinks::link_of(table, art, folders) {
            Some(l) => {
                &&& l.slug == table.0
                &&& l.link.len() > 0
                &&& set_to(table.1, "link"@, l.link)
                &&& set_to(table.1, "open_with"@, l.open_with)
                &&& set_to(table.1, "name"@, l.name) || (set_to(table.1, "name"@, Seq::empty())
                    && l.name == table.0)
                &&& l.icon == if pieces::holds(l.link, "://"@) {
                    art.internet
                } else if folders.contains(l.link) {
                    art.folder
                } else {
                    art.application
                }
            },
            None => set_to(table.1, "link"@, Seq::empty()),
        },
{
    lemma_value_in(table.1, "link"@);
    lemma_value_in(table.1, "name"@);
    lemma_value_in(table.1, "open_with"@);
    let link = quicklinks::value_in(table.1, "link"@);
    if link.len() == 0 {
        assert(link =~= Seq::<char>::empty());
    }
    let name = quicklinks::value_in(table.1, "name"@);
    if name.len() == 0 {
        assert(name =~= Seq::<char>::empty());
    }
}

/// Every sub-table that is a quicklink is there, and no other, each once.
pub proof fn law_every_table_counts(
    tables: Seq<(Seq<char>, Seq<(Seq<char>, Seq<char>)>)>,
    art: Art,
    folders: Seq<Seq<char>>,
) -> (at: Seq<int>)
    ensures
        at.len() == quicklinks::links_of(tables, art, folders).len(),
        search_laws::ascending(at, tables.len() as int),
        forall|i: int|
            0 <= i < at.len() ==> quicklinks::link_of(tables[at[i]], art, folders) == Some(
                #[trigger] quicklinks::links_of(tables, art, folders)[i],
            ),
        forall|k: int|
            0 <= k < tables.len() ==> (#[trigger] at.contains(k) <==> quicklinks::link_of(
                tables[k],
                art,
                folders,
            ) is Some),
    decreases tables.len(),
{
    let all = quicklinks::links_of(tables, art, folders);
    if tables.len() == 0 {
        Seq::empty()
    } else {
        let t = tables.drop_last();
        let n = t.len() as int;
        let before = quicklinks::links_of(t, art, folders);
        let so_far = law_every_table_counts(t, art, folders);
        match quicklinks::link_of(tables[n], art, folders) {
            Some(l) => {
                let at = so_far.push(n);
                assert forall|i: int| 0 <= i < at.len() implies quicklinks::link_of(
                    tables[at[i]],
                    art,
                    folders,
                ) == Some(#[trigger] all[i]) by {
                    if i < before.len() {
                        assert(all[i] == before[i]);
                        assert(tables[at[i]] == t[so_far[i]]);
                    }
                }
                assert forall|k: int| 0 <= k < tables.len() implies (#[trigger] at.contains(k)
                    <==> quicklinks::link_of(tables[k], art, folders) is Some) by {
                    if k < n {
                        assert(tables[k] == t[k]);
                        if so_far.contains(k) {
                            let i = choose|i: int| 0 <= i < so_far.len() && so_far[i] == k;
                            assert(at[i] == k);
                        }
                        if at.contains(k) {
                            let i = choose|i: int| 0 <= i < at.len() && at[i] == k;
                            assert(so_far[i] == k);
                            assert(so_far.contains(k));
                        }
                    } else {
                        assert(at[so_far.len() as int] == k);
                    }
                }
                at
            },
            None => {
                assert forall|i: int| 0 <= i < so_far.len() implies quicklinks::link_of(
                    tables[so_far[i]],
                    art,
                    folders,
                ) == Some(#[trigger] all[i]) by {
                    assert(all[i] == before[i]);
                    assert(tables[so_far[i]] == t[so_far[i]]);
                }
                assert forall|k: int| 0 <= k < tables.len() implies (#[trigger] so_far.contains(k)
                    <==> quicklinks::link_of(tables[k], art, folders) is Some) by {
                    if k < n {
                        assert(tables[k] == t[k]);
                    } else if so_far.contains(k) {
                        let i = choose|i: int| 0 <= i < so_far.len() && so_far[i] == k;
                        assert(so_far[i] < n);
                    }
                }
                so_far
            },
        }
    }
}

/// A reload keeps every quicklink of the configuration and puts them in the
/// order of their names; a new application index leaves them alone.
pub proof fn law_quicklinks_of_a_reload(
    p: &Quicklinks,
    disk: Disk,
    index: Catalogue,
    l: Link,
)
    ensures
        p.reloaded(disk).links.contains(l) <==> quicklinks::links_of(
            config::subtables_in(disk.config@, "quicklinks"@),
            p@.art,
            pieces::strings(disk.folders@),
        ).contains(l),
        forall|i: int, j: int|
            0 <= i < j < p.reloaded(disk).links.len() ==> !order::precedes(
                (#[trigger] p.reloaded(disk).links[j]).name,
                (#[trigger] p.reloaded(disk).links[i]).name,
            ),
        p.indexed(index).links == p@.links,
{
    broadcast use vstd::seq_lib::group_to_multiset_ensures;

    let all = quicklinks::links_of(
        config::subtables_in(disk.config@, "quicklinks"@),
        p@.art,
        pieces::strings(disk.folders@),
    );
    let r = p.reloaded(disk).links;
    let key = quicklinks::by_name();
    order::law_ranking_orders(all, key);
    assert(r.to_multiset().count(l) == all.to_multiset().count(l));
    assert forall|i: int, j: int| 0 <= i < j < r.len() implies !order::precedes(
        (#[trigger] r[j]).name,
        (#[trigger] r[i]).name,
    ) by {
        assert(!order::before(key(r[j]), key(r[i])));
    }
}

/// A new quicklink goes by its name made into a key, or by "link" where nothing
/// is left of it; where that is taken, with a number behind a hyphen, the first
/// from two on that is free.
pub proof fn law_how_a_new_slug_is_found(links: Seq<Link>, name: Seq<char>, n: nat)
    ensures
        ({
            let key = rewrite::as_key(text::trimmed(name));
            let base = if key.len() > 0 {
                key
            } else {
                "link"@
            };
            let slug = quicklinks::free_slug_of(links, name);
            &&& unknown(links, slug)
            &&& unknown(links, base) ==> slug == base
            &&& !unknown(links, base) && n >= 2 && unknown(
                links,
                base.push('-') + numbers::shown(n),
            ) && (forall|m: nat|
                2 <= m < n ==> !unknown(links, base.push('-') + #[trigger] numbers::shown(m)))
                ==> slug == base.push('-') + numbers::shown(n)
        }),
{
    reveal_strlit("-");
    let base = quicklinks::slug_base(name);
    let slug = quicklinks::free_slug_of(links, name);
    quicklink_laws::law_a_free_slug_is_found(links, name);
    lemma_find_in(links, slug);
    lemma_find_in(links, base);
    let wanted = base.push('-') + numbers::shown(n);
    assert(quicklinks::numbered(base, n) =~= wanted);
    lemma_find_in(links, wanted);
    if !unknown(links, base) && n >= 2 && unknown(links, wanted) && (forall|m: nat|
        2 <= m < n ==> !unknown(links, base.push('-') + #[trigger] numbers::shown(m))) {
        assert forall|m: nat| 2 <= m < n implies quicklinks::taken(
            links,
            #[trigger] quicklinks::numbered(base, m),
        ) by {
            let other = base.push('-') + numbers::shown(m);
            assert(quicklinks::numbered(base, m) =~= other);
            lemma_find_in(links, other);
        }
        assert(quicklinks::is_free_slug(links, name, quicklinks::numbered(base, n)));
        quicklinks::law_the_free_slug_is_determined(links, name, slug, wanted);
    }
}

/// Every action of a quicklink goes by its label, and they stand in one order.
pub proof fn law_how_the_actions_are_labelled(p: &Quicklinks, row: Row)
    ensures
        row.payload == "!create"@ ==> p.offered(row) == seq![
            Offer { id: "create"@, label: "Create Quicklink"@ },
        ],
        row.payload != "!create"@ ==> p.offered(row).len() == 4 && p.offered(row)[0].label
            == "Open"@ && p.offered(row)[1].label == "Edit Quicklink\u{2026}"@ && p.offered(
            row,
        )[2].label == "Delete Quicklink"@ && p.offered(row)[3].label
            == "Create Quicklink\u{2026}"@,
{
}

/// A form says what it is for: a new quicklink, one that is edited, or that a
/// link is missing.
pub proof fn law_what_the_forms_say(
    p: &Quicklinks,
    row: Row,
    id: Seq<char>,
    fields: Seq<Filled>,
    folder: bool,
)
    ensures
        p.on_action("create"@, row).result matches Outcome::RequestForm { title, .. } && title
            == "New Quicklink"@,
        p.on_action("edit"@, row).result matches Outcome::RequestForm { title, .. } ==> title
            == "Edit Quicklink"@,
        unknown(p@.links, row.payload) ==> p.on_action("edit"@, row) == Answer::just(
            Outcome::Done,
        ),
        p.on_form(id, row, fields, folder).result matches Outcome::RequestForm { title, .. }
            ==> title == "Link is required"@,
{
    lemma_ids();
    lemma_find_in(p@.links, row.payload);
}

/// The row that makes a quicklink asks for a new one, as its action does,
/// whatever quicklinks there are.
pub proof fn law_making_a_quicklink(p: &Quicklinks, row: Row)
    ensures
        row.payload == "!create"@ ==> p.on_activate(row) == p.on_action("create"@, row),
        row.payload != "!create"@ ==> p.on_activate(row) == p.on_action("open"@, row),
        match p.on_action("create"@, row).result {
            Outcome::RequestForm { action_id, fields, .. } => action_id == "create"@ && holds(
                fields,
                Seq::empty(),
                Seq::empty(),
                Seq::empty(),
            ),
            _ => false,
        },
        p.on_action("create"@, row).effect == Deed::Nothing,
{
    lemma_ids();
    reveal_strlit("");
    assert(""@ =~= Seq::<char>::empty());
}

} // verus!
