//! What holds of quicklinks: how they are named, kept and found again.
use vstd::prelude::*;
use vstd::string::*;

use crate::config::{self, Setting};
use crate::order;
use crate::plugin::Filled;
use crate::plugins::quicklinks::{self, Art, Link};
use crate::rewrite;
use crate::rewrite_laws;
use crate::text;

verus! {

// ---- naming ---------------------------------------------------------------------------------

proof fn lemma_first_free(links: Seq<Link>, name: Seq<char>, n: nat)
    requires
        quicklinks::taken(links, quicklinks::slug_base(name)),
        n >= 2,
        forall|m: nat|
            2 <= m < n ==> quicklinks::taken(
                links,
                #[trigger] quicklinks::numbered(quicklinks::slug_base(name), m),
            ),
    ensures
        exists|slug: Seq<char>| quicklinks::is_free_slug(links, name, slug),
    decreases links.len() + 3 - n,
{
    let base = quicklinks::slug_base(name);
    quicklinks::lemma_numbers_run_out(links, base, n);
    let slug = quicklinks::numbered(base, n);
    if quicklinks::taken(links, slug) {
        lemma_first_free(links, name, n + 1);
    } else {
        assert(quicklinks::is_free_slug(links, name, slug));
    }
}

/// A slug that is free is always found.
pub proof fn law_a_free_slug_is_found(links: Seq<Link>, name: Seq<char>)
    ensures
        quicklinks::is_free_slug(links, name, quicklinks::free_slug_of(links, name)),
        !quicklinks::taken(links, quicklinks::free_slug_of(links, name)),
{
    let base = quicklinks::slug_base(name);
    if quicklinks::taken(links, base) {
        lemma_first_free(links, name, 2);
    } else {
        assert(quicklinks::is_free_slug(links, name, base));
    }
    let slug = quicklinks::free_slug_of(links, name);
    quicklinks::law_the_free_slug_is_determined(links, name, slug, slug);
}

/// A new quicklink never takes the place of another.
pub proof fn law_creating_replaces_nothing(
    links: Seq<Link>,
    art: Art,
    payload: Seq<char>,
    fields: Seq<Filled>,
    folder: bool,
)
    ensures
        !quicklinks::taken(
            links,
            quicklinks::link_in_form(links, art, "create"@, payload, fields, folder).slug,
        ),
{
    reveal_strlit("create");
    reveal_strlit("edit");
    assert("create"@.len() != "edit"@.len());
    let l = quicklinks::link_in_form(links, art, "create"@, payload, fields, folder);
    law_a_free_slug_is_found(links, l.name);
}

/// A quicklink keeps its slug when it is edited, whatever its new name, so
/// that it keeps its launch history.
pub proof fn law_editing_keeps_the_slug(
    links: Seq<Link>,
    art: Art,
    payload: Seq<char>,
    fields: Seq<Filled>,
    folder: bool,
)
    requires
        quicklinks::taken(links, payload),
    ensures
        quicklinks::link_in_form(links, art, "edit"@, payload, fields, folder).slug == payload,
{
}

// ---- keeping ---------------------------------------------------------------------------------

/// No two quicklinks have one slug.
pub open spec fn unique(links: Seq<Link>) -> bool {
    forall|i: int, j: int|
        0 <= i < j < links.len() ==> (#[trigger] links[i]).slug != (#[trigger] links[j]).slug
}

pub proof fn lemma_find_in(links: Seq<Link>, l: Link)
    requires
        unique(links),
    ensures
        quicklinks::find_in(links, l.slug) == Some(l) <==> links.contains(l),
{
    quicklinks::lemma_slug_at(links, l.slug);
    let k = quicklinks::slug_at(links, l.slug);
    if links.contains(l) {
        let i = choose|i: int| 0 <= i < links.len() && links[i] == l;
        if i < k {
            assert(links[i].slug != l.slug);
        } else if k < i {
            assert(links[k].slug != links[i].slug);
        }
    }
}

proof fn lemma_ranked_unique(links: Seq<Link>)
    requires
        unique(links),
    ensures
        unique(order::ranked(links, quicklinks::by_name())),
        forall|l: Link|
            #![auto]
            order::ranked(links, quicklinks::by_name()).contains(l) <==> links.contains(l),
{
    broadcast use vstd::seq_lib::group_to_multiset_ensures;

    let r = order::ranked(links, quicklinks::by_name());
    order::law_ranking_orders(links, quicklinks::by_name());
    assert forall|l: Link| #![auto] r.contains(l) <==> links.contains(l) by {
        assert(r.to_multiset().count(l) == links.to_multiset().count(l));
    }
    assert(links.no_duplicates()) by {
        assert forall|i: int, j: int|
            0 <= i < links.len() && 0 <= j < links.len() && i != j implies links[i]
            != links[j] by {
            if i < j {
                assert(links[i].slug != links[j].slug);
            } else {
                assert(links[j].slug != links[i].slug);
            }
        }
    }
    links.lemma_multiset_has_no_duplicates();
    r.lemma_multiset_has_no_duplicates_conv();
    assert forall|i: int, j: int| 0 <= i < j < r.len() implies (#[trigger] r[i]).slug != (
    #[trigger] r[j]).slug by {
        assert(r.contains(r[i]) && r.contains(r[j]));
        let a = choose|a: int| 0 <= a < links.len() && links[a] == r[i];
        let b = choose|b: int| 0 <= b < links.len() && links[b] == r[j];
        assert(r[i] != r[j]);
        if a < b {
            assert(links[a].slug != links[b].slug);
        } else {
            assert(links[b].slug != links[a].slug);
        }
    }
}

/// A quicklink that was saved is found by its slug; every other is found as
/// before. They stay in the order of their names.
pub proof fn law_saving_changes_one_quicklink(links: Seq<Link>, l: Link, other: Link)
    requires
        unique(links),
        other.slug != l.slug,
    ensures
        ({
            let new = quicklinks::saved(links, l);
            &&& unique(new)
            &&& order::in_order(new, quicklinks::by_name())
            &&& quicklinks::find_in(new, l.slug) == Some(l)
            &&& (quicklinks::find_in(new, other.slug) == Some(other) <==> quicklinks::find_in(
                links,
                other.slug,
            ) == Some(other))
        }),
{
    quicklinks::lemma_slug_at(links, l.slug);
    let k = quicklinks::slug_at(links, l.slug);
    let plain = if k < links.len() {
        links.update(k, l)
    } else {
        links.push(l)
    };
    assert forall|i: int, j: int| 0 <= i < j < plain.len() implies (#[trigger] plain[i]).slug != (
    #[trigger] plain[j]).slug by {
        if k < links.len() {
            assert(plain[i].slug == links[i].slug && plain[j].slug == links[j].slug);
            assert(links[i].slug != links[j].slug);
        } else {
            assert(plain[i] == links[i]);
            if j < links.len() {
                assert(plain[j] == links[j]);
            }
        }
    }
    lemma_ranked_unique(plain);
    order::law_ranking_orders(plain, quicklinks::by_name());
    let new = quicklinks::saved(links, l);
    let at = if k < links.len() {
        k
    } else {
        links.len() as int
    };
    assert(plain[at] == l);
    assert(plain.contains(l));
    assert(new.contains(l));
    lemma_find_in(new, l);
    lemma_find_in(new, other);
    lemma_find_in(links, other);
    assert(plain.contains(other) == links.contains(other)) by {
        if plain.contains(other) {
            let i = choose|i: int| 0 <= i < plain.len() && plain[i] == other;
            assert(links[i] == other);
        }
        if links.contains(other) {
            let i = choose|i: int| 0 <= i < links.len() && links[i] == other;
            assert(plain[i] == other);
        }
    }
    assert(new.contains(other) == plain.contains(other));
}

proof fn lemma_without_slug(links: Seq<Link>, slug: Seq<char>, l: Link)
    ensures
        quicklinks::without_slug(links, slug).contains(l) <==> links.contains(l) && l.slug != slug,
    decreases links.len(),
{
    let r = quicklinks::without_slug(links, slug);
    if links.len() > 0 {
        let t = links.drop_last();
        lemma_without_slug(t, slug, l);
        let before = quicklinks::without_slug(t, slug);
        assert(links.contains(l) == (t.contains(l) || links.last() == l)) by {
            if t.contains(l) {
                let i = choose|i: int| 0 <= i < t.len() && t[i] == l;
                assert(links[i] == l);
            }
            if links.contains(l) {
                let i = choose|i: int| 0 <= i < links.len() && links[i] == l;
                if i < t.len() {
                    assert(t[i] == l);
                }
            }
            assert(links[links.len() - 1] == links.last());
        }
        if links.last().slug != slug {
            assert(r.contains(l) == (before.contains(l) || links.last() == l)) by {
                if before.contains(l) {
                    let i = choose|i: int| 0 <= i < before.len() && before[i] == l;
                    assert(r[i] == l);
                }
                if r.contains(l) {
                    let i = choose|i: int| 0 <= i < r.len() && r[i] == l;
                    if i < before.len() {
                        assert(before[i] == l);
                    }
                }
                assert(r[r.len() - 1] == links.last());
            }
        }
    }
}

/// A quicklink that was deleted is gone, and no other is.
pub proof fn law_deleting_removes_one_quicklink(links: Seq<Link>, slug: Seq<char>, l: Link)
    ensures
        quicklinks::without_slug(links, slug).contains(l) <==> links.contains(l) && l.slug != slug,
        !quicklinks::taken(quicklinks::without_slug(links, slug), slug),
{
    lemma_without_slug(links, slug, l);
    let r = quicklinks::without_slug(links, slug);
    quicklinks::lemma_slug_at(r, slug);
    let k = quicklinks::slug_at(r, slug);
    if k < r.len() {
        lemma_without_slug(links, slug, r[k]);
        assert(r.contains(r[k]));
    }
}

// ---- reading back -----------------------------------------------------------------------------

proof fn lemma_trimmed_twice(s: Seq<char>)
    ensures
        text::trimmed(text::trimmed(s)) == text::trimmed(s),
    decreases s.len(),
{
    if s.len() > 0 && text::is_white(s.first()) {
        lemma_trimmed_twice(s.drop_first());
    } else if s.len() > 0 && text::is_white(s.last()) {
        lemma_trimmed_twice(s.drop_last());
    }
}

proof fn lemma_entries_front(settings: Seq<Setting>, section: Seq<char>)
    requires
        settings.len() > 0,
    ensures
        config::entries_in(settings, section) == (if settings[0].section == section {
            seq![(settings[0].key, settings[0].value)]
        } else {
            Seq::empty()
        }) + config::entries_in(settings.drop_first(), section),
    decreases settings.len(),
{
    let t = settings.drop_first();
    let s = settings.drop_last();
    if settings.len() > 1 {
        lemma_entries_front(s, section);
        assert(s.drop_first() =~= t.drop_last());
        assert(t.last() == settings.last());
        assert(s[0] == settings[0]);
    } else {
        assert(s =~= Seq::empty());
        assert(t =~= Seq::empty());
    }
    let head = if settings[0].section == section {
        seq![(settings[0].key, settings[0].value)]
    } else {
        Seq::empty()
    };
    assert(config::entries_in(settings, section) =~= head + config::entries_in(t, section));
}

proof fn lemma_value_in(settings: Seq<Setting>, section: Seq<char>, key: Seq<char>)
    ensures
        quicklinks::value_in(config::entries_in(settings, section), key) == match config::lookup(
            settings,
            section,
            key,
        ) {
            Some(v) => text::trimmed(v),
            None => Seq::empty(),
        },
    decreases settings.len(),
{
    if settings.len() > 0 {
        let t = settings.drop_first();
        lemma_entries_front(settings, section);
        lemma_value_in(t, section, key);
        config::lemma_place_of(t, section, key);
        let e = config::entries_in(settings, section);
        let rest = config::entries_in(t, section);
        if settings[0].section == section {
            assert(e[0] == (settings[0].key, settings[0].value));
            assert(e.drop_first() =~= rest);
        } else {
            assert(e =~= rest);
        }
    }
}

proof fn lemma_slugs_in(settings: Seq<Setting>, prefix: Seq<char>, slug: Seq<char>, i: int)
    requires
        0 <= i < settings.len(),
        config::slug_of(settings[i].section, prefix) == Some(slug),
    ensures
        config::slugs_in(settings, prefix).contains(slug),
    decreases settings.len(),
{
    let t = settings.drop_last();
    let before = config::slugs_in(t, prefix);
    let all = config::slugs_in(settings, prefix);
    if i < t.len() {
        lemma_slugs_in(t, prefix, slug, i);
        let k = choose|k: int| 0 <= k < before.len() && before[k] == slug;
        assert(all[k] == slug);
    } else if !before.contains(slug) {
        assert(all[all.len() - 1] == slug);
    }
}

proof fn lemma_links_of(
    tables: Seq<(Seq<char>, Seq<(Seq<char>, Seq<char>)>)>,
    art: Art,
    folders: Seq<Seq<char>>,
    i: int,
    l: Link,
)
    requires
        0 <= i < tables.len(),
        quicklinks::link_of(tables[i], art, folders) == Some(l),
    ensures
        quicklinks::links_of(tables, art, folders).contains(l),
    decreases tables.len(),
{
    let t = tables.drop_last();
    let before = quicklinks::links_of(t, art, folders);
    let all = quicklinks::links_of(tables, art, folders);
    if i < t.len() {
        lemma_links_of(t, art, folders, i, l);
        let k = choose|k: int| 0 <= k < before.len() && before[k] == l;
        assert(all[k] == l);
    } else {
        assert(all[all.len() - 1] == l);
    }
}

/// A quicklink that was written to the configuration is there after a reload,
/// as it was.
pub proof fn law_written_quicklinks_are_there_after_a_reload(
    s: Seq<char>,
    l: Link,
    art: Art,
    folders: Seq<Seq<char>>,
)
    requires
        l.slug.len() > 0 && rewrite::bare_key(l.slug),
        rewrite::quotable(l.name) && rewrite::quotable(l.link) && rewrite::quotable(l.open_with),
        l.name.len() > 0 && text::trimmed(l.name) == l.name,
        l.link.len() > 0 && text::trimmed(l.link) == l.link,
        text::trimmed(l.open_with) == l.open_with,
        l.icon == art.of(l.link, folders.contains(l.link)),
    ensures
        quicklinks::links_of(
            config::subtables_in(
                config::settings_of(
                    rewrite::with_quicklink(s, l.slug, l.name, l.link, l.open_with),
                ),
                quicklinks::ID@,
            ),
            art,
            folders,
        ).contains(l),
{
    let new = rewrite::with_quicklink(s, l.slug, l.name, l.link, l.open_with);
    let settings = config::settings_of(new);
    let section = rewrite::quicklink_section(l.slug);
    let prefix = quicklinks::ID@;
    reveal_strlit("quicklinks");
    reveal_strlit("quicklinks.");
    assert(prefix.push('.') =~= "quicklinks."@);
    assert(config::section_of(prefix, l.slug) =~= section);
    rewrite_laws::law_quicklinks_read_back(s, l.slug, l.name, l.link, l.open_with);
    lemma_value_in(settings, section, "name"@);
    lemma_value_in(settings, section, "link"@);
    lemma_value_in(settings, section, "open_with"@);
    if l.open_with.len() == 0 {
        assert(l.open_with =~= Seq::empty());
    }
    config::lemma_place_of(settings, section, "link"@);
    let at = config::place_of(settings, section, "link"@);
    assert(settings[at].section == section);
    assert(section.take(prefix.len() as int) =~= prefix);
    assert(section[prefix.len() as int] == '.');
    assert(section.skip(prefix.len() as int + 1) =~= l.slug);
    lemma_slugs_in(settings, prefix, l.slug, at);
    let slugs = config::slugs_in(settings, prefix);
    let i = choose|i: int| 0 <= i < slugs.len() && slugs[i] == l.slug;
    let tables = config::subtables_in(settings, prefix);
    assert(tables[i] == (l.slug, config::entries_in(settings, section)));
    lemma_links_of(tables, art, folders, i, l);
}

/// A quicklink made with the form is there after a reload, as it was made.
pub proof fn law_created_quicklinks_are_there_after_a_reload(
    s: Seq<char>,
    links: Seq<Link>,
    art: Art,
    payload: Seq<char>,
    fields: Seq<Filled>,
    folders: Seq<Seq<char>>,
)
    requires
        quicklinks::field_value(fields, 1).len() > 0,
    ensures
        ({
            let folder = folders.contains(quicklinks::field_value(fields, 1));
            let l = quicklinks::link_in_form(links, art, "create"@, payload, fields, folder);
            let new = rewrite::with_quicklink(s, l.slug, l.name, l.link, l.open_with);
            quicklinks::links_of(
                config::subtables_in(config::settings_of(new), quicklinks::ID@),
                art,
                folders,
            ).contains(l)
        }),
{
    let folder = folders.contains(quicklinks::field_value(fields, 1));
    let l = quicklinks::link_in_form(links, art, "create"@, payload, fields, folder);
    lemma_field_value(fields, 0);
    lemma_field_value(fields, 1);
    lemma_field_value(fields, 2);
    reveal_strlit("create");
    reveal_strlit("edit");
    assert("create"@.len() != "edit"@.len());
    law_a_free_slug_is_found(links, l.name);
    lemma_free_slug_is_bare(links, l.name, l.slug);
    law_written_quicklinks_are_there_after_a_reload(s, l, art, folders);
}

proof fn lemma_field_value(fields: Seq<Filled>, i: int)
    ensures
        rewrite::quotable(quicklinks::field_value(fields, i)),
        text::trimmed(quicklinks::field_value(fields, i)) == quicklinks::field_value(fields, i),
{
    if 0 <= i < fields.len() {
        rewrite::law_sanitized_values_are_quotable(fields[i].value);
        lemma_trimmed_twice(rewrite::without_quotes(fields[i].value));
    }
}

proof fn lemma_free_slug_is_bare(links: Seq<Link>, name: Seq<char>, slug: Seq<char>)
    requires
        quicklinks::is_free_slug(links, name, slug),
    ensures
        slug.len() > 0,
        rewrite::bare_key(slug),
{
    let base = quicklinks::slug_base(name);
    rewrite::law_sanitized_keys_are_bare(text::trimmed(name));
    reveal_strlit("link");
    reveal_strlit("-");
    assert(rewrite::bare_key(base));
    if quicklinks::taken(links, base) {
        let n = choose|n: nat|
            n >= 2 && slug == #[trigger] quicklinks::numbered(base, n) && !quicklinks::taken(
                links,
                slug,
            ) && (forall|m: nat|
                2 <= m < n ==> quicklinks::taken(links, #[trigger] quicklinks::numbered(base, m)));
        crate::numbers::lemma_shown(n);
        let digits = crate::numbers::shown(n);
        assert forall|i: int| 0 <= i < slug.len() implies rewrite::key_char(#[trigger] slug[i]) by {
            if i < base.len() {
                assert(slug[i] == base[i]);
            } else if i > base.len() {
                assert(slug[i] == digits[i - base.len() - 1]);
                assert(text::is_digit(digits[i - base.len() - 1]));
            }
        }
    }
}

} // verus!
