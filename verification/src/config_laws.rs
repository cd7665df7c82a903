//! What a configuration says: its lines, its sections, its flags, its lists,
//! and the hotkey it names.
use vstd::prelude::*;
use vstd::string::*;

use crate::config::{self, Found, Line, Setting};
use crate::numbers;
use crate::pieces;
use crate::plugins;
use crate::rewrite_laws;
use crate::text;
use crate::text_laws;

verus! {

// ---- lines -------------------------------------------------------------------------------------

proof fn lemma_no_comment(s: Seq<char>, i: int, open: Option<char>, literal: int)
    requires
        0 <= i <= s.len(),
        !s.contains('#'),
    ensures
        config::comment_at(s, i, open, literal) == s.len(),
    decreases s.len() - i,
{
    if i < s.len() {
        assert(s[i] != '#');
        let next = match open {
            Some(q) => if s[i] == q {
                None
            } else {
                open
            },
            None => if s[i] == '"' || i == literal {
                Some(s[i])
            } else {
                None
            },
        };
        lemma_no_comment(s, i + 1, next, literal);
    }
}

/// A line without a `#` has no comment, and says what is left when the white
/// space around it is taken away.
pub proof fn law_lines_without_a_mark_have_no_comment(s: Seq<char>)
    requires
        !s.contains('#'),
    ensures
        config::uncommented(s) == s,
        config::comment_in(s).len() == 0,
        config::line_of(s) == config::statement(text::trimmed(s)),
{
    lemma_no_comment(s, 0, None, config::literal_at(s));
    assert(s.take(s.len() as int) =~= s);
}

/// A heading names its section whatever the case and the white space; a line
/// with an `=` sets what stands before the first one, likewise, to what stands
/// behind it, without the quotes around it. Any other line says nothing.
pub proof fn law_headings_and_settings(name: Seq<char>, key: Seq<char>, value: Seq<char>)
    ensures
        config::statement(seq!['['] + name + seq![']']) == Line::Header(
            text::lowered(text::trimmed(name)),
        ),
        !key.contains('=') && !(key.len() > 0 && key[0] == '[' && value.len() > 0 && value.last()
            == ']') ==> config::statement(key + seq!['='] + value) == Line::Pair(
            text::lowered(text::trimmed(key)),
            config::unquoted(text::trimmed(value)),
        ),
        !key.contains('=') && !(key.len() > 0 && key[0] == '[') ==> config::statement(key)
            is Other,
{
    let h = seq!['['] + name + seq![']'];
    assert(h[0] == '[' && h.last() == ']');
    assert(h.subrange(1, h.len() - 1) =~= name);
    let p = key + seq!['='] + value;
    if !key.contains('=') {
        assert(p[key.len() as int] == '=');
        assert forall|i: int| 0 <= i < key.len() implies p[i] != '=' by {
            assert(p[i] == key[i]);
            assert(key.contains(key[i]));
        }
        pieces::lemma_first_of_is(p, '=', key.len() as int);
        assert(p.take(key.len() as int) =~= key);
        assert(p.skip(key.len() as int + 1) =~= value);
        if value.len() > 0 {
            assert(p.last() == value.last());
        } else {
            assert(p.last() == '=');
        }
        if key.len() > 0 {
            assert(p[0] == key[0]);
        } else {
            assert(p[0] == '=');
        }
        pieces::lemma_first_of(key, '=');
        let k = pieces::first_of(key, '=');
        if k < key.len() {
            assert(key[k] == '=');
        }
    }
}

/// A value loses the quotes around it, double or single, if it has them on
/// both sides and alike; else it stays as it is.
pub proof fn law_quotes_around_a_value(v: Seq<char>, q: char)
    ensures
        q == '"' || q == '\'' ==> config::unquoted(seq![q] + v + seq![q]) == v,
        v.len() < 2 || (v[0] != '"' && v[0] != '\'') || v.last() != v[0] ==> config::unquoted(v)
            == v,
{
    let w = seq![q] + v + seq![q];
    assert(w[0] == q && w.last() == q);
    assert(w.subrange(1, w.len() - 1) =~= v);
}

// ---- sections ----------------------------------------------------------------------------------

/// A heading starts its section and ends the one before: what follows it
/// belongs to it, wherever it stands, and what comes before does not.
pub proof fn law_headings_start_a_section(
    start: Seq<char>,
    before: Seq<Seq<char>>,
    heading: Seq<char>,
    name: Seq<char>,
    after: Seq<Seq<char>>,
)
    requires
        config::line_of(heading) == Line::Header(name),
    ensures
        config::pairs_of(start, before + seq![heading] + after) == config::pairs_of(start, before)
            + config::pairs_of(name, after),
{
    rewrite_laws::lemma_pairs_concat(start, before + seq![heading], after);
    rewrite_laws::lemma_pairs_concat(start, before, seq![heading]);
    let lead = before + seq![heading];
    assert(lead.last() == heading);
    assert(lead.drop_last() =~= before);
    assert(config::section_after(start, lead) == name);
    assert(config::pairs_of(start, lead) == config::pairs_of(start, before));
}

/// A line that sets a key adds that setting, under the section in force; a
/// line that says nothing adds none.
pub proof fn law_lines_set_keys(start: Seq<char>, lines: Seq<Seq<char>>, line: Seq<char>)
    ensures
        match config::line_of(line) {
            Line::Pair(key, value) => config::pairs_of(start, lines.push(line)) == config::pairs_of(
                start,
                lines,
            ).push(Setting { section: config::section_after(start, lines), key, value }),
            _ => config::pairs_of(start, lines.push(line)) == config::pairs_of(start, lines),
        },
        !(config::line_of(line) is Header) ==> config::section_after(start, lines.push(line))
            == config::section_after(start, lines),
        config::section_after(start, Seq::empty()) == start,
{
    assert(lines.push(line).drop_last() =~= lines);
}

/// The entries and the values of a section are those of its settings, in
/// order, and of no other section.
pub proof fn law_sections_list_their_own(
    settings: Seq<Setting>,
    x: Setting,
    section: Seq<char>,
)
    ensures
        config::entries_in(settings.push(x), section) == if x.section == section {
            config::entries_in(settings, section).push((x.key, x.value))
        } else {
            config::entries_in(settings, section)
        },
        config::values_in(settings.push(x), section) == if x.section == section {
            config::values_in(settings, section).push(x.value)
        } else {
            config::values_in(settings, section)
        },
        config::entries_in(Seq::empty(), section).len() == 0,
        config::values_in(Seq::empty(), section).len() == 0,
{
    assert(settings.push(x).drop_last() =~= settings);
}

/// A flag is on where its key is set to "true", in any case, and off where it
/// is set to anything else; where it is not set, it is what it is by default.
pub proof fn law_flags(
    settings: Seq<Setting>,
    section: Seq<char>,
    key: Seq<char>,
    default: bool,
)
    ensures
        match config::lookup(settings, section, key) {
            Some(v) => config::flag_of(settings, section, key, default)
                <==> text::same_ignoring_case(v, "true"@),
            None => config::flag_of(settings, section, key, default) == default,
        },
{
}

/// A plugin is there unless the configuration turns it off.
pub proof fn law_plugins_are_enabled_unless_turned_off(settings: Seq<Setting>, id: Seq<char>)
    ensures
        plugins::enabled(settings, id) <==> match config::lookup(
            settings,
            "plugins"@,
            text::lowered(id),
        ) {
            Some(v) => text::same_ignoring_case(v, "true"@),
            None => true,
        },
{
}

// ---- sub-tables --------------------------------------------------------------------------------

/// A section is a sub-table of a prefix exactly if its name is the prefix, a
/// dot, and something behind it, which is its slug.
pub proof fn law_slugs(section: Seq<char>, prefix: Seq<char>, slug: Seq<char>)
    ensures
        config::slug_of(section, prefix) == Some(slug) <==> slug.len() > 0 && section
            == prefix.push('.') + slug,
        config::section_of(prefix, slug) == prefix.push('.') + slug,
{
    let n = prefix.len() as int;
    if config::slug_of(section, prefix) == Some(slug) {
        assert(section =~= prefix.push('.') + slug);
    }
    if slug.len() > 0 && section == prefix.push('.') + slug {
        assert(section.take(n) =~= prefix);
        assert(section[n] == '.');
        assert(section.skip(n + 1) =~= slug);
    }
}

proof fn lemma_slugs(settings: Seq<Setting>, prefix: Seq<char>)
    ensures
        config::slugs_in(settings, prefix).no_duplicates(),
        forall|slug: Seq<char>| #[trigger]
            config::slugs_in(settings, prefix).contains(slug) <==> exists|i: int|
                0 <= i < settings.len() && config::slug_of(
                    (#[trigger] settings[i]).section,
                    prefix,
                ) == Some(slug),
    decreases settings.len(),
{
    if settings.len() > 0 {
        let t = settings.drop_last();
        lemma_slugs(t, prefix);
        let x = settings[settings.len() - 1];
        let before = config::slugs_in(t, prefix);
        let all = config::slugs_in(settings, prefix);
        assert forall|slug: Seq<char>| #[trigger] all.contains(slug) <==> exists|i: int|
            0 <= i < settings.len() && config::slug_of((#[trigger] settings[i]).section, prefix)
                == Some(slug) by {
            if all.contains(slug) {
                let i = choose|i: int| 0 <= i < all.len() && all[i] == slug;
                if i < before.len() {
                    assert(before[i] == slug);
                    assert(before.contains(slug));
                    let k = choose|k: int|
                        0 <= k < t.len() && config::slug_of((#[trigger] t[k]).section, prefix)
                            == Some(slug);
                    assert(settings[k] == t[k]);
                } else {
                    assert(config::slug_of(x.section, prefix) == Some(slug));
                }
            }
            if exists|i: int|
                0 <= i < settings.len() && config::slug_of((#[trigger] settings[i]).section, prefix)
                    == Some(slug) {
                let i = choose|i: int|
                    0 <= i < settings.len() && config::slug_of(
                        (#[trigger] settings[i]).section,
                        prefix,
                    ) == Some(slug);
                if i < t.len() {
                    assert(t[i] == settings[i]);
                    assert(before.contains(slug));
                    let k = choose|k: int| 0 <= k < before.len() && before[k] == slug;
                    assert(all[k] == slug);
                } else if !before.contains(slug) {
                    assert(all[all.len() - 1] == slug);
                }
            }
        }
    }
}

/// The sub-tables of a prefix are those that settings stand in, each once, with
/// its own entries.
pub proof fn law_subtables(settings: Seq<Setting>, prefix: Seq<char>, i: int, slug: Seq<char>)
    ensures
        0 <= i < config::subtables_in(settings, prefix).len() ==> config::subtables_in(
            settings,
            prefix,
        )[i].1 == config::entries_in(
            settings,
            prefix.push('.') + config::subtables_in(settings, prefix)[i].0,
        ),
        (exists|j: int|
            0 <= j < config::subtables_in(settings, prefix).len() && (
            #[trigger] config::subtables_in(settings, prefix)[j]).0 == slug) <==> slug.len() > 0
            && exists|k: int|
            0 <= k < settings.len() && (#[trigger] settings[k]).section == prefix.push('.') + slug,
        forall|a: int, b: int|
            0 <= a < b < config::subtables_in(settings, prefix).len() ==> (
            #[trigger] config::subtables_in(settings, prefix)[a]).0 != (
            #[trigger] config::subtables_in(settings, prefix)[b]).0,
{
    lemma_slugs(settings, prefix);
    let slugs = config::slugs_in(settings, prefix);
    let tables = config::subtables_in(settings, prefix);
    assert forall|k: int| 0 <= k < settings.len() implies (config::slug_of(
        (#[trigger] settings[k]).section,
        prefix,
    ) == Some(slug) <==> slug.len() > 0 && settings[k].section == prefix.push('.') + slug) by {
        law_slugs(settings[k].section, prefix, slug);
    }
    if slugs.contains(slug) {
        let j = choose|j: int| 0 <= j < slugs.len() && slugs[j] == slug;
        assert(tables[j].0 == slug);
        let k = choose|k: int|
            0 <= k < settings.len() && config::slug_of((#[trigger] settings[k]).section, prefix)
                == Some(slug);
        assert(settings[k].section == prefix.push('.') + slug);
    }
    if exists|j: int| 0 <= j < tables.len() && (#[trigger] tables[j]).0 == slug {
        let j = choose|j: int| 0 <= j < tables.len() && (#[trigger] tables[j]).0 == slug;
        assert(slugs[j] == slug);
        assert(slugs.contains(slug));
    }
    if slug.len() > 0 && exists|k: int|
        0 <= k < settings.len() && (#[trigger] settings[k]).section == prefix.push('.') + slug {
        let k = choose|k: int|
            0 <= k < settings.len() && (#[trigger] settings[k]).section == prefix.push('.') + slug;
        assert(config::slug_of(settings[k].section, prefix) == Some(slug));
        assert(slugs.contains(slug));
    }
}

// ---- the hotkey --------------------------------------------------------------------------------

/// One of the names of a chord, joined with `+`, is this.
pub open spec fn is_named(parts: Seq<Seq<char>>, name: Seq<char>) -> bool {
    exists|i: int| 0 <= i < parts.len() && text::trimmed(#[trigger] parts[i]) == name
}

/// A name that a modifier goes by.
pub open spec fn known(name: Seq<char>) -> bool {
    name == "alt"@ || name == "ctrl"@ || name == "control"@ || name == "shift"@ || name == "win"@
        || name == "super"@
}

proof fn lemma_names()
    ensures
        "alt"@.len() == 3,
        "alt"@[0] == 'a',
        "ctrl"@.len() == 4,
        "control"@.len() == 7,
        "shift"@.len() == 5,
        "shift"@[1] == 'h',
        "win"@.len() == 3,
        "win"@[0] == 'w',
        "super"@.len() == 5,
        "super"@[1] == 'u',
        "none"@.len() == 4,
        "none"@[0] == 'n',
{
    reveal_strlit("alt");
    reveal_strlit("ctrl");
    reveal_strlit("control");
    reveal_strlit("shift");
    reveal_strlit("win");
    reveal_strlit("super");
    reveal_strlit("none");
}

proof fn lemma_bit(parts: Seq<Seq<char>>)
    ensures
        config::names_bit(parts, 1) <==> is_named(parts, "alt"@),
        config::names_bit(parts, 2) <==> is_named(parts, "ctrl"@) || is_named(parts, "control"@),
        config::names_bit(parts, 4) <==> is_named(parts, "shift"@),
        config::names_bit(parts, 8) <==> is_named(parts, "win"@) || is_named(parts, "super"@),
        config::names_bit(parts, 0) <==> exists|i: int|
            0 <= i < parts.len() && !known(text::trimmed(#[trigger] parts[i])),
{
    lemma_names();
    if config::names_bit(parts, 2) {
        let i = choose|i: int|
            0 <= i < parts.len() && config::modifier(text::trimmed(#[trigger] parts[i])) == 2;
        assert(text::trimmed(parts[i]) == "ctrl"@ || text::trimmed(parts[i]) == "control"@);
    }
    if config::names_bit(parts, 8) {
        let i = choose|i: int|
            0 <= i < parts.len() && config::modifier(text::trimmed(#[trigger] parts[i])) == 8;
        assert(text::trimmed(parts[i]) == "win"@ || text::trimmed(parts[i]) == "super"@);
    }
}

/// The modifiers of a hotkey: Alt counts one, Control two, Shift four, the
/// Windows key eight, each once however often it is named, whatever the case
/// and the white space. "none" names none, and a name that is no modifier
/// spoils them all.
pub proof fn law_modifiers_by_name(s: Seq<char>)
    ensures
        ({
            let t = text::lowered(text::trimmed(s));
            let parts = pieces::split_on(t, '+');
            &&& t == "none"@ ==> config::mods_of(s) == Some(0u32)
            &&& t != "none"@ ==> (config::mods_of(s) is None <==> exists|i: int|
                0 <= i < parts.len() && !known(text::trimmed(#[trigger] parts[i])))
            &&& t != "none"@ ==> (config::mods_of(s) matches Some(m) ==> {
                let alt: int = if is_named(parts, "alt"@) {
                    1
                } else {
                    0
                };
                let ctrl: int = if is_named(parts, "ctrl"@) || is_named(parts, "control"@) {
                    2
                } else {
                    0
                };
                let shift: int = if is_named(parts, "shift"@) {
                    4
                } else {
                    0
                };
                let win: int = if is_named(parts, "win"@) || is_named(parts, "super"@) {
                    8
                } else {
                    0
                };
                m == alt + ctrl + shift + win
            })
        }),
{
    let t = text::lowered(text::trimmed(s));
    lemma_bit(pieces::split_on(t, '+'));
}

/// A letter or a digit names its own key, in any case; `f1` to `f24` name the
/// function keys; space, escape, tab, enter and the grave accent go by their
/// words. Nothing else names a key.
pub proof fn law_keys_by_name(s: Seq<char>)
    ensures
        ({
            let t = text::lowered(text::trimmed(s));
            let k = config::key_of(s);
            &&& t.len() == 1 && 'a' <= t[0] <= 'z' ==> k == Some((t[0] as u32 - 32) as u32)
            &&& t.len() == 1 && '0' <= t[0] <= '9' ==> k == Some(t[0] as u32)
            &&& t == "space"@ ==> k == Some(0x20u32)
            &&& t == "escape"@ || t == "esc"@ ==> k == Some(0x1Bu32)
            &&& t == "tab"@ ==> k == Some(0x09u32)
            &&& t == "enter"@ || t == "return"@ ==> k == Some(0x0Du32)
            &&& t == "grave"@ || t == "backtick"@ || t == "`"@ ==> k == Some(0xC0u32)
            &&& k is Some ==> (t.len() == 1 && ('a' <= t[0] <= 'z' || '0' <= t[0] <= '9')) || t
                == "space"@ || t == "escape"@ || t == "esc"@ || t == "tab"@ || t == "enter"@ || t
                == "return"@ || t == "grave"@ || t == "backtick"@ || t == "`"@ || (t.len() > 1
                && t[0] == 'f' && (numbers::decimal(t.skip(1)) matches Some(n) && 1 <= n <= 24))
        }),
        forall|n: nat|
            1 <= n <= 24 && #[trigger] numbers::shown(n) == text::lowered(text::trimmed(s)).skip(1)
                && text::lowered(text::trimmed(s)).len() > 1 && text::lowered(text::trimmed(s))[0]
                == 'f' ==> config::key_of(s) == Some((0x6F + n) as u32),
{
    reveal_strlit("space");
    reveal_strlit("escape");
    reveal_strlit("esc");
    reveal_strlit("tab");
    reveal_strlit("enter");
    reveal_strlit("return");
    reveal_strlit("grave");
    reveal_strlit("backtick");
    reveal_strlit("`");
    let t = text::lowered(text::trimmed(s));
    if t.len() == 1 {
        assert(t.skip(1) =~= Seq::<char>::empty());
    }
    assert forall|n: nat|
        1 <= n <= 24 && #[trigger] numbers::shown(n) == t.skip(1) && t.len() > 1 && t[0]
            == 'f' implies config::key_of(s) == Some((0x6F + n) as u32) by {
        numbers::law_shown_numbers_read_back(n);
    }
}

/// A hotkey is one that names its modifiers and its key, both known; anything
/// less is none.
pub proof fn law_a_hotkey_needs_both(settings: Seq<Setting>, mods: u32, vk: u32)
    ensures
        config::hotkey_of(settings) == Some((mods, vk)) <==> (config::lookup(
            settings,
            "hotkey"@,
            "modifiers"@,
        ) matches Some(m) && config::mods_of(m) == Some(mods)) && (config::lookup(
            settings,
            "hotkey"@,
            "key"@,
        ) matches Some(k) && config::key_of(k) == Some(vk)),
{
}

/// The hotkey in force is the one that is named, and Control with Escape where
/// none is.
pub proof fn law_the_hotkey_in_force(settings: Seq<Setting>)
    ensures
        config::hotkey_of(settings) matches Some(h) ==> config::hotkey_in_force(settings) == h,
        config::hotkey_of(settings) is None ==> config::hotkey_in_force(settings) == (2u32, 0x1Bu32),
{
}

/// The window is frosted unless the configuration asks for no backdrop, in any
/// case.
pub proof fn law_the_window_is_frosted_unless_turned_off(settings: Seq<Setting>)
    ensures
        config::frosted(settings) <==> !(config::lookup(
            settings,
            "appearance"@,
            "backdrop"@,
        ) matches Some(v) && text::same_ignoring_case(v, "none"@)),
{
}

/// A file that is there is read as it is. The default text stands in for one
/// that is missing or cannot be read, and nothing does where there is no place
/// for one.
pub proof fn law_what_is_read(found: Found)
    ensures
        found matches Found::Text(s) ==> config::text_taken(found) == s@,
        found is Absent || found is Unreadable ==> config::text_taken(found)
            == config::DEFAULT_FILE@,
        found is Nowhere ==> config::text_taken(found).len() == 0,
{
}

// ---- apostrophes -------------------------------------------------------------------------------

/// The comment of `s` starts at the first `#` with an even number of double
/// quotes before it.
pub open spec fn cut_by_marks(s: Seq<char>) -> bool {
    let k = config::uncommented(s).len() as int;
    &&& config::uncommented(s).is_prefix_of(s)
    &&& k < s.len() ==> s[k] == '#' && config::marks_before(s, k) % 2 == 0
    &&& forall|j: int|
        0 <= j < k && #[trigger] s[j] == '#' ==> config::marks_before(s, j) % 2 == 1
}

/// A single apostrophe in a line hides nothing of it: the comment starts where
/// it would without.
pub proof fn law_a_single_apostrophe_hides_nothing(s: Seq<char>)
    requires
        forall|i: int, j: int|
            0 <= i < j < s.len() && #[trigger] s[i] == '\'' ==> #[trigger] s[j] != '\'',
    ensures
        cut_by_marks(s),
{
    let at = config::value_at(s);
    if config::opens_literal(s, at) {
        let rest = s.skip(at + 1);
        let k = choose|k: int| 0 <= k < rest.len() && rest[k] == '\'';
        assert(s[at + 1 + k] == '\'');
    }
    config::law_comments_are_cut(s);
}

proof fn lemma_past_white(s: Seq<char>, i: int, j: int)
    requires
        0 <= i <= j <= s.len(),
        forall|k: int| i <= k < j ==> text::is_white(#[trigger] s[k]),
        j < s.len() ==> !text::is_white(s[j]),
    ensures
        config::past_white(s, i) == j,
    decreases j - i,
{
    if i < j {
        assert(text::is_white(s[i]));
        lemma_past_white(s, i + 1, j);
    }
}

/// Apostrophes count only where a value starts with one: in a line whose value
/// starts with another character the comment starts where it would without
/// any.
pub proof fn law_apostrophes_count_at_the_start_of_a_value(
    key: Seq<char>,
    gap: Seq<char>,
    value: Seq<char>,
)
    requires
        !key.contains('='),
        forall|k: int| 0 <= k < gap.len() ==> text::is_white(#[trigger] gap[k]),
        value.len() > 0,
        !text::is_white(value[0]),
        value[0] != '\'',
    ensures
        cut_by_marks(key.push('=') + gap + value),
{
    let s = key.push('=') + gap + value;
    let n = key.len() as int;
    assert(s[n] == '=');
    assert forall|j: int| 0 <= j < n implies s[j] != '=' by {
        assert(s[j] == key[j]);
        assert(key.contains(key[j]));
    }
    pieces::lemma_first_of_is(s, '=', n);
    let at = n + 1 + gap.len();
    assert forall|k: int| n + 1 <= k < at implies text::is_white(#[trigger] s[k]) by {
        assert(s[k] == gap[k - n - 1]);
    }
    assert(s[at] == value[0]);
    lemma_past_white(s, n + 1, at);
    config::law_comments_are_cut(s);
}

} // verus!
