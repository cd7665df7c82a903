//! User configuration: the text of `config.toml` and what it says.
//!
//! A small subset of TOML: `[section]`, `key = value`, `#` comments, strings in
//! either quote style, booleans.
use vstd::prelude::*;
use vstd::string::*;

use crate::numbers;
use crate::pieces::{self, find, find_from, split};
use crate::text::{
    self, chars_of, eq_ignore_ascii_case, lower, same, slice_of, string_of, trim, white,
};

verus! {

/// The hotkey when the file names none: Ctrl and Escape.
pub const DEFAULT_HOTKEY_MODS: u32 = 0x0002;

pub const DEFAULT_HOTKEY_VK: u32 = 0x1B;

/// What a new configuration file holds.
pub const DEFAULT_FILE: &'static str = "# Apex configuration
# Changes take effect on restart.

[general]
# Create/refresh a Start menu entry for apex on launch.
start_menu = true
# Launch apex automatically at sign-in.
start_on_startup = true

[hotkey]
# Modifiers joined with '+': ctrl, alt, shift, win. Use \"none\" for bare keys.
modifiers = \"ctrl\"
# Key: a-z, 0-9, f1-f24, space, escape, tab, grave, enter
key = \"escape\"

[plugins]
# Set to false to disable a plugin entirely; a disabled plugin is never
# constructed and uses zero memory.
search = true
";

// ---- lines ----------------------------------------------------------------------

/// From `i` on over white space.
pub open spec fn past_white(s: Seq<char>, i: int) -> int
    decreases s.len() - i,
{
    if i < s.len() && text::is_white(s[i]) {
        past_white(s, i + 1)
    } else {
        i
    }
}

/// Where the value of a line starts: the first character behind its first `=`
/// that is not white.
pub open spec fn value_at(s: Seq<char>) -> int {
    past_white(s, pieces::first_of(s, '=') + 1)
}

/// A string between single quotes starts at `i`: its closing quote follows.
pub open spec fn opens_literal(s: Seq<char>, i: int) -> bool {
    0 <= i < s.len() && s[i] == '\'' && s.skip(i + 1).contains('\'')
}

/// Where the string between single quotes stands that a line may have for its
/// value; the length of the line when it has none. Anywhere else a single
/// quote is an apostrophe.
pub open spec fn literal_at(s: Seq<char>) -> int {
    if opens_literal(s, value_at(s)) {
        value_at(s)
    } else {
        s.len() as int
    }
}

/// Where the comment of a line starts, scanning from `i` inside the quotes
/// `open`, if any, with a string between single quotes at `literal`; the
/// length of the line when it has none.
pub open spec fn comment_at(s: Seq<char>, i: int, open: Option<char>, literal: int) -> int
    decreases s.len() - i,
{
    if i >= s.len() {
        s.len() as int
    } else {
        match open {
            Some(q) => comment_at(
                s,
                i + 1,
                if s[i] == q {
                    None
                } else {
                    open
                },
                literal,
            ),
            None => if s[i] == '#' {
                i
            } else {
                comment_at(
                    s,
                    i + 1,
                    if s[i] == '"' || i == literal {
                        Some(s[i])
                    } else {
                        None
                    },
                    literal,
                )
            },
        }
    }
}

/// Where the comment of a line starts; the length of the line when it has none.
pub open spec fn cut_at(s: Seq<char>) -> int {
    comment_at(s, 0, None, literal_at(s))
}

/// A line up to its comment.
pub open spec fn uncommented(s: Seq<char>) -> Seq<char> {
    s.take(cut_at(s))
}

/// The comment of a line; nothing where it has none.
pub open spec fn comment_in(s: Seq<char>) -> Seq<char> {
    s.skip(cut_at(s))
}

proof fn lemma_comment_starts(s: Seq<char>, i: int, open: Option<char>, literal: int)
    requires
        0 <= i <= s.len(),
    ensures
        i <= comment_at(s, i, open, literal) <= s.len(),
        comment_at(s, i, open, literal) < s.len() ==> s[comment_at(s, i, open, literal)] == '#',
    decreases s.len() - i,
{
    if i < s.len() {
        lemma_comment_starts(s, i + 1, None, literal);
        lemma_comment_starts(s, i + 1, open, literal);
        lemma_comment_starts(s, i + 1, Some(s[i]), literal);
    }
}

/// A comment starts with `#`, says nothing, and is a comment by itself too.
pub proof fn lemma_comment_in(s: Seq<char>)
    ensures
        0 <= cut_at(s) <= s.len(),
        comment_in(s).len() > 0 ==> comment_in(s)[0] == '#' && line_of(comment_in(s)) == Line::Other
            && comment_in(comment_in(s)) == comment_in(s),
{
    lemma_comment_starts(s, 0, None, literal_at(s));
    let c = comment_in(s);
    if c.len() > 0 {
        assert(cut_at(c) == 0);
        assert(uncommented(c) =~= Seq::empty());
        assert(c.skip(0) =~= c);
    }
}

/// How many double quotes stand before `i`.
pub open spec fn marks_before(s: Seq<char>, i: int) -> int
    decreases i,
{
    if i <= 0 {
        0
    } else {
        marks_before(s, i - 1) + if s[i - 1] == '"' {
            1int
        } else {
            0
        }
    }
}

proof fn lemma_comment_at(s: Seq<char>, i: int, open: Option<char>)
    requires
        0 <= i <= s.len(),
        open == if marks_before(s, i) % 2 == 1 {
            Some('"')
        } else {
            None
        },
    ensures
        ({
            let k = comment_at(s, i, open, s.len() as int);
            &&& i <= k <= s.len()
            &&& k < s.len() ==> s[k] == '#' && marks_before(s, k) % 2 == 0
            &&& forall|j: int|
                i <= j < k && #[trigger] s[j] == '#' ==> marks_before(s, j) % 2 == 1
        }),
    decreases s.len() - i,
{
    if i < s.len() && !(open is None && s[i] == '#') {
        let next = match open {
            Some(q) => if s[i] == q {
                None
            } else {
                open
            },
            None => if s[i] == '"' {
                Some(s[i])
            } else {
                None
            },
        };
        lemma_comment_at(s, i + 1, next);
    }
}

/// On every line whose value is no string between single quotes, the comment
/// starts at the first `#` with an even number of double quotes before it.
/// Apostrophes do not count.
pub proof fn law_comments_are_cut(s: Seq<char>)
    requires
        !opens_literal(s, value_at(s)),
    ensures
        uncommented(s).is_prefix_of(s),
        ({
            let k = uncommented(s).len() as int;
            &&& k < s.len() ==> s[k] == '#' && marks_before(s, k) % 2 == 0
            &&& forall|j: int|
                0 <= j < k && #[trigger] s[j] == '#' ==> marks_before(s, j) % 2 == 1
        }),
{
    lemma_comment_at(s, 0, None);
}

/// A value without the quotes around it.
pub open spec fn unquoted(s: Seq<char>) -> Seq<char> {
    if s.len() >= 2 && s[0] == s.last() && (s[0] == '"' || s[0] == '\'') {
        s.subrange(1, s.len() - 1)
    } else {
        s
    }
}

/// What a line says.
#[verifier::ext_equal]
pub enum Line {
    Header(Seq<char>),
    Pair(Seq<char>, Seq<char>),
    /// A blank line, a comment, or anything else.
    Other,
}

/// What a line without its comment says.
pub open spec fn statement(t: Seq<char>) -> Line {
    let eq = pieces::first_of(t, '=');
    if t.len() >= 2 && t[0] == '[' && t.last() == ']' {
        Line::Header(text::lowered(text::trimmed(t.subrange(1, t.len() - 1))))
    } else if eq < t.len() {
        Line::Pair(
            text::lowered(text::trimmed(t.take(eq))),
            unquoted(text::trimmed(t.skip(eq + 1))),
        )
    } else {
        Line::Other
    }
}

pub open spec fn line_of(raw: Seq<char>) -> Line {
    statement(text::trimmed(uncommented(raw)))
}

/// The section in force after these lines, `start` being in force before.
pub open spec fn section_after(start: Seq<char>, lines: Seq<Seq<char>>) -> Seq<char>
    decreases lines.len(),
{
    if lines.len() == 0 {
        start
    } else {
        match line_of(lines.last()) {
            Line::Header(name) => name,
            _ => section_after(start, lines.drop_last()),
        }
    }
}

/// A key of a section and its value.
#[verifier::ext_equal]
pub struct Setting {
    pub section: Seq<char>,
    pub key: Seq<char>,
    pub value: Seq<char>,
}

/// Every `key = value` of these lines, in order, `start` being the section in
/// force before them.
pub open spec fn pairs_of(start: Seq<char>, lines: Seq<Seq<char>>) -> Seq<Setting>
    decreases lines.len(),
{
    if lines.len() == 0 {
        Seq::empty()
    } else {
        let before = pairs_of(start, lines.drop_last());
        match line_of(lines.last()) {
            Line::Pair(key, value) => before.push(
                Setting { section: section_after(start, lines.drop_last()), key, value },
            ),
            _ => before,
        }
    }
}

pub open spec fn same_key(a: Setting, b: Setting) -> bool {
    a.section == b.section && a.key == b.key
}

/// Where a key stands among `settings`; their number when it does not.
pub open spec fn place_of(settings: Seq<Setting>, section: Seq<char>, key: Seq<char>) -> int {
    pieces::first_where(settings, |x: Setting| x.section == section && x.key == key)
}

/// `settings` and one more: a key that is there takes the new value.
pub open spec fn put(settings: Seq<Setting>, x: Setting) -> Seq<Setting> {
    let i = place_of(settings, x.section, x.key);
    if i < settings.len() {
        settings.update(i, x)
    } else {
        settings.push(x)
    }
}

/// What a list of `key = value` comes to, later ones overriding earlier ones.
pub open spec fn settled(pairs: Seq<Setting>) -> Seq<Setting>
    decreases pairs.len(),
{
    if pairs.len() == 0 {
        Seq::empty()
    } else {
        put(settled(pairs.drop_last()), pairs.last())
    }
}

/// What a configuration text says.
pub open spec fn settings_of(s: Seq<char>) -> Seq<Setting> {
    settled(pairs_of(Seq::empty(), pieces::split_on(s, '\n')))
}

/// The value of a key, if it is set.
pub open spec fn lookup(settings: Seq<Setting>, section: Seq<char>, key: Seq<char>) -> Option<
    Seq<char>,
> {
    let i = place_of(settings, section, key);
    if i < settings.len() {
        Some(settings[i].value)
    } else {
        None
    }
}

/// No key is set twice.
pub open spec fn unique(settings: Seq<Setting>) -> bool {
    forall|i: int, j: int|
        0 <= i < j < settings.len() ==> !same_key(#[trigger] settings[i], #[trigger] settings[j])
}

pub proof fn lemma_place_of(settings: Seq<Setting>, section: Seq<char>, key: Seq<char>)
    ensures
        ({
            let i = place_of(settings, section, key);
            &&& 0 <= i <= settings.len()
            &&& i < settings.len() ==> settings[i].section == section && settings[i].key == key
            &&& forall|j: int|
                0 <= j < i ==> !((#[trigger] settings[j]).section == section && settings[j].key
                    == key)
        }),
{
    pieces::lemma_first_where(settings, |x: Setting| x.section == section && x.key == key);
}

pub proof fn lemma_place_of_is(settings: Seq<Setting>, section: Seq<char>, key: Seq<char>, i: int)
    requires
        0 <= i <= settings.len(),
        i < settings.len() ==> settings[i].section == section && settings[i].key == key,
        forall|j: int|
            0 <= j < i ==> !((#[trigger] settings[j]).section == section && settings[j].key == key),
    ensures
        place_of(settings, section, key) == i,
{
    pieces::lemma_first_where_is(
        settings,
        |x: Setting| x.section == section && x.key == key,
        i,
    );
}

/// However often a key is written, it is set once.
pub proof fn law_no_key_is_set_twice(pairs: Seq<Setting>)
    ensures
        unique(settled(pairs)),
    decreases pairs.len(),
{
    if pairs.len() > 0 {
        law_no_key_is_set_twice(pairs.drop_last());
        let s = settled(pairs.drop_last());
        let x = pairs.last();
        lemma_place_of(s, x.section, x.key);
        let r = put(s, x);
        let i = place_of(s, x.section, x.key);
        assert forall|a: int, b: int| 0 <= a < b < r.len() implies !same_key(
            #[trigger] r[a],
            #[trigger] r[b],
        ) by {
            if i < s.len() {
                assert(same_key(r[a], s[a]) && same_key(r[b], s[b]));
                assert(!same_key(s[a], s[b]));
            } else if b < s.len() {
                assert(!same_key(s[a], s[b]));
            }
        }
    }
}

/// The value of a key is the one written last.
pub proof fn law_the_last_value_counts(
    pairs: Seq<Setting>,
    x: Setting,
    section: Seq<char>,
    key: Seq<char>,
)
    ensures
        lookup(settled(pairs.push(x)), section, key) == if x.section == section && x.key == key {
            Some(x.value)
        } else {
            lookup(settled(pairs), section, key)
        },
{
    let s = settled(pairs);
    assert(pairs.push(x).drop_last() =~= pairs);
    let r = put(s, x);
    let i = place_of(s, x.section, x.key);
    lemma_place_of(s, x.section, x.key);
    let k = place_of(s, section, key);
    lemma_place_of(s, section, key);
    if x.section == section && x.key == key {
        lemma_place_of_is(r, section, key, i);
    } else {
        if k < s.len() {
            assert forall|j: int| 0 <= j < k implies !((#[trigger] r[j]).section == section
                && r[j].key == key) by {
                assert(!(s[j].section == section && s[j].key == key));
            }
            lemma_place_of_is(r, section, key, k);
        } else {
            assert forall|j: int| 0 <= j < r.len() implies !((#[trigger] r[j]).section == section
                && r[j].key == key) by {
                if j < s.len() {
                    assert(!(s[j].section == section && s[j].key == key));
                }
            }
            lemma_place_of_is(r, section, key, r.len() as int);
        }
    }
}

// ---- reading lines ----------------------------------------------------------------

/// Where a line has a string between single quotes for its value; its length
/// when it has none.
fn literal_start(line: &[char]) -> (k: usize)
    ensures
        k == literal_at(line@),
{
    let n: usize = line.len();
    let eq: usize = find(line, '=');
    if eq >= n {
        return n;
    }
    let mut v: usize = eq + 1;
    while v < n && white(line[v])
        invariant
            n == line@.len(),
            eq < v <= n,
            past_white(line@, v as int) == past_white(line@, eq + 1),
        decreases n - v,
    {
        v += 1;
    }
    if v < n && line[v] == '\'' {
        let end: usize = find_from(line, v + 1, '\'');
        proof {
            pieces::lemma_first_of(line@.skip(v + 1), '\'');
        }
        if end < n {
            return v;
        }
    }
    n
}

/// Where the comment of a line starts; its length when it has none.
pub fn comment_start(line: &[char]) -> (k: usize)
    ensures
        k <= line@.len(),
        k == cut_at(line@),
{
    let literal: usize = literal_start(line);
    let mut open: Option<char> = None;
    let mut i: usize = 0;
    while i < line.len()
        invariant
            i <= line@.len(),
            literal == literal_at(line@),
            comment_at(line@, i as int, open, literal as int) == comment_at(
                line@,
                0,
                None,
                literal as int,
            ),
        decreases line@.len() - i,
    {
        let c = line[i];
        match open {
            Some(q) => {
                if c == q {
                    open = None;
                }
            },
            None => {
                if c == '#' {
                    return i;
                }
                if c == '"' || i == literal {
                    open = Some(c);
                }
            },
        }
        i += 1;
    }
    i
}

/// A line up to its comment, quoted strings left alone.
fn strip_comment(line: &[char]) -> (out: Vec<char>)
    ensures
        out@ == uncommented(line@),
{
    let k: usize = comment_start(line);
    let out = slice_of(line, 0, k);
    assert(out@ =~= uncommented(line@));
    out
}

/// The comment of a line; nothing where it has none.
pub fn comment_of(line: &[char]) -> (out: Vec<char>)
    ensures
        out@ == comment_in(line@),
{
    let k: usize = comment_start(line);
    let out = slice_of(line, k, line.len());
    assert(out@ =~= comment_in(line@));
    out
}

/// A value without the quotes around it.
fn unquote(v: &[char]) -> (out: Vec<char>)
    ensures
        out@ == unquoted(v@),
{
    let n: usize = v.len();
    if n >= 2 && v[0] == v[n - 1] && (v[0] == '"' || v[0] == '\'') {
        slice_of(v, 1, n - 1)
    } else {
        let out = slice_of(v, 0, n);
        assert(out@ =~= v@);
        out
    }
}

/// What a line says, in strings.
pub enum Statement {
    Header(String),
    Pair(String, String),
    Other,
}

impl View for Statement {
    type V = Line;

    open spec fn view(&self) -> Line {
        match self {
            Statement::Header(name) => Line::Header(name@),
            Statement::Pair(key, value) => Line::Pair(key@, value@),
            Statement::Other => Line::Other,
        }
    }
}

/// The characters, without the white space around them, in small letters.
fn normal(chars: &[char]) -> (r: String)
    ensures
        r@ == text::lowered(text::trimmed(chars@)),
{
    let t = trim(chars);
    let s = string_of(t.as_slice());
    lower(s.as_str())
}

/// What a line says.
pub fn read_line(raw: &[char]) -> (r: Statement)
    ensures
        r@ == line_of(raw@),
{
    let bare = strip_comment(raw);
    let t = trim(bare.as_slice());
    let n: usize = t.len();
    if n >= 2 && t[0] == '[' && t[n - 1] == ']' {
        let inner = slice_of(t.as_slice(), 1, n - 1);
        return Statement::Header(normal(inner.as_slice()));
    }
    let eq: usize = find(t.as_slice(), '=');
    if eq < n {
        let k = slice_of(t.as_slice(), 0, eq);
        let v = slice_of(t.as_slice(), eq + 1, n);
        assert(k@ =~= t@.take(eq as int));
        assert(v@ =~= t@.skip(eq + 1));
        let value = trim(v.as_slice());
        let value = unquote(value.as_slice());
        Statement::Pair(normal(k.as_slice()), string_of(value.as_slice()))
    } else {
        Statement::Other
    }
}

// ---- the hotkey -------------------------------------------------------------------

/// The bit of a modifier by its name; no bit for a name that is none.
pub open spec fn modifier(name: Seq<char>) -> u32 {
    if name == "alt"@ {
        1
    } else if name == "ctrl"@ || name == "control"@ {
        2
    } else if name == "shift"@ {
        4
    } else if name == "win"@ || name == "super"@ {
        8
    } else {
        0
    }
}

/// One of the names joined with `+` stands for the bit.
pub open spec fn names_bit(parts: Seq<Seq<char>>, bit: u32) -> bool {
    exists|i: int| 0 <= i < parts.len() && modifier(text::trimmed(#[trigger] parts[i])) == bit
}

pub open spec fn bit_if(named: bool, bit: u32) -> u32 {
    if named {
        bit
    } else {
        0
    }
}

/// The modifiers a text names, joined with `+`, as bits; `None` when one of
/// them is unknown.
pub open spec fn mods_of(s: Seq<char>) -> Option<u32> {
    let t = text::lowered(text::trimmed(s));
    let parts = pieces::split_on(t, '+');
    if t == "none"@ {
        Some(0)
    } else if names_bit(parts, 0) {
        None
    } else {
        Some(
            (bit_if(names_bit(parts, 1), 1) + bit_if(names_bit(parts, 2), 2) + bit_if(
                names_bit(parts, 4),
                4,
            ) + bit_if(names_bit(parts, 8), 8)) as u32,
        )
    }
}

/// The code of a key that goes by a word.
pub open spec fn named_key(t: Seq<char>) -> Option<u32> {
    if t == "space"@ {
        Some(0x20)
    } else if t == "escape"@ || t == "esc"@ {
        Some(0x1B)
    } else if t == "tab"@ {
        Some(0x09)
    } else if t == "enter"@ || t == "return"@ {
        Some(0x0D)
    } else if t == "grave"@ || t == "backtick"@ || t == "`"@ {
        Some(0xC0)
    } else {
        None
    }
}

/// The code of the key a text names.
pub open spec fn key_of(s: Seq<char>) -> Option<u32> {
    let t = text::lowered(text::trimmed(s));
    if t.len() == 1 && 'a' <= t[0] <= 'z' {
        Some((0x41 + (t[0] as u32 - 'a' as u32)) as u32)
    } else if t.len() == 1 && text::is_digit(t[0]) {
        Some((0x30 + (t[0] as u32 - '0' as u32)) as u32)
    } else if t.len() > 0 && t[0] == 'f' && function_number(t) is Some {
        Some((0x70 + function_number(t)->0 - 1) as u32)
    } else {
        named_key(t)
    }
}

/// The number of a function key, `f1` to `f24`.
pub open spec fn function_number(t: Seq<char>) -> Option<nat> {
    match numbers::decimal(t.skip(1)) {
        Some(n) => if 1 <= n <= 24 {
            Some(n)
        } else {
            None
        },
        None => None,
    }
}

/// The hotkey the settings name, where they name a modifier and a key.
pub open spec fn hotkey_of(settings: Seq<Setting>) -> Option<(u32, u32)> {
    match (
        lookup(settings, "hotkey"@, "modifiers"@),
        lookup(settings, "hotkey"@, "key"@),
    ) {
        (Some(m), Some(k)) => match (mods_of(m), key_of(k)) {
            (Some(mods), Some(vk)) => Some((mods, vk)),
            _ => None,
        },
        _ => None,
    }
}

/// The hotkey in force: the one the settings name, or Control+Escape.
pub open spec fn hotkey_in_force(settings: Seq<Setting>) -> (u32, u32) {
    match hotkey_of(settings) {
        Some(h) => h,
        None => (DEFAULT_HOTKEY_MODS, DEFAULT_HOTKEY_VK),
    }
}

/// What is behind the window shows through it, frosted.
pub open spec fn frosted(settings: Seq<Setting>) -> bool {
    match lookup(settings, "appearance"@, "backdrop"@) {
        Some(v) => !text::same_ignoring_case(v, "none"@),
        None => true,
    }
}

fn modifier_bit(name: &str) -> (r: u32)
    ensures
        r == modifier(name@),
{
    if same(name, "alt") {
        1
    } else if same(name, "ctrl") || same(name, "control") {
        2
    } else if same(name, "shift") {
        4
    } else if same(name, "win") || same(name, "super") {
        8
    } else {
        0
    }
}

/// The modifiers a text names, as bits.
pub fn parse_mods(s: &str) -> (r: Option<u32>)
    ensures
        r == mods_of(s@),
{
    let c = chars_of(s);
    let t = normal(c.as_slice());
    if same(t.as_str(), "none") {
        return Some(0);
    }
    let tc = chars_of(t.as_str());
    let parts = split(tc.as_slice(), '+');
    let ghost ps = pieces::texts(parts@);
    let mut alt = false;
    let mut ctrl = false;
    let mut shift = false;
    let mut win = false;
    let mut i: usize = 0;
    assert(forall|bit: u32| !#[trigger] names_bit(ps.take(0), bit));
    while i < parts.len()
        invariant
            i <= parts@.len(),
            ps == pieces::texts(parts@),
            !names_bit(ps.take(i as int), 0),
            alt == names_bit(ps.take(i as int), 1),
            ctrl == names_bit(ps.take(i as int), 2),
            shift == names_bit(ps.take(i as int), 4),
            win == names_bit(ps.take(i as int), 8),
            names_bit(ps, 0) ==> mods_of(s@) is None,
        decreases parts@.len() - i,
    {
        let word = trim(parts[i].as_slice());
        let word = string_of(word.as_slice());
        let bit: u32 = modifier_bit(word.as_str());
        proof {
            assert(ps[i as int] == parts@[i as int]@);
            assert forall|b: u32| #[trigger] names_bit(ps.take(i + 1), b) == (names_bit(
                ps.take(i as int),
                b,
            ) || b == bit) by {
                let (p, q) = (ps.take(i as int), ps.take(i + 1));
                if names_bit(p, b) {
                    let k = choose|k: int|
                        0 <= k < p.len() && modifier(text::trimmed(#[trigger] p[k])) == b;
                    assert(q[k] == p[k]);
                }
                if b == bit {
                    assert(q[i as int] == ps[i as int]);
                }
                if names_bit(q, b) {
                    let k = choose|k: int|
                        0 <= k < q.len() && modifier(text::trimmed(#[trigger] q[k])) == b;
                    if k < i {
                        assert(p[k] == q[k]);
                    }
                }
            }
            assert(names_bit(ps.take(i + 1), bit));
        }
        if bit == 0 {
            proof {
                assert(modifier(text::trimmed(ps[i as int])) == 0);
            }
            return None;
        }
        if bit == 1 {
            alt = true;
        } else if bit == 2 {
            ctrl = true;
        } else if bit == 4 {
            shift = true;
        } else {
            win = true;
        }
        i += 1;
    }
    assert(ps.take(ps.len() as int) =~= ps);
    let a: u32 = if alt {
        1
    } else {
        0
    };
    let c: u32 = if ctrl {
        2
    } else {
        0
    };
    let sh: u32 = if shift {
        4
    } else {
        0
    };
    let w: u32 = if win {
        8
    } else {
        0
    };
    Some(a + c + sh + w)
}

/// The code of the key a text names.
pub fn parse_key(s: &str) -> (r: Option<u32>)
    ensures
        r == key_of(s@),
{
    let c = chars_of(s);
    let name = normal(c.as_slice());
    let t = chars_of(name.as_str());
    if t.len() == 1 && 'a' <= t[0] && t[0] <= 'z' {
        return Some(0x41 + (t[0] as u32 - 'a' as u32));
    }
    if t.len() == 1 && '0' <= t[0] && t[0] <= '9' {
        return Some(0x30 + (t[0] as u32 - '0' as u32));
    }
    if t.len() > 0 && t[0] == 'f' {
        let digits = slice_of(t.as_slice(), 1, t.len());
        assert(digits@ =~= t@.skip(1));
        if let Some(n) = numbers::parse(digits.as_slice()) {
            if 1 <= n && n <= 24 {
                return Some(0x70 + n as u32 - 1);
            }
        }
    }
    let name = name.as_str();
    if same(name, "space") {
        Some(0x20)
    } else if same(name, "escape") || same(name, "esc") {
        Some(0x1B)
    } else if same(name, "tab") {
        Some(0x09)
    } else if same(name, "enter") || same(name, "return") {
        Some(0x0D)
    } else if same(name, "grave") || same(name, "backtick") || same(name, "`") {
        Some(0xC0)
    } else {
        None
    }
}

// ---- the configuration ------------------------------------------------------------

/// A key of a section and its value, in strings.
pub struct Stored {
    pub section: String,
    pub key: String,
    pub value: String,
}

impl View for Stored {
    type V = Setting;

    open spec fn view(&self) -> Setting {
        Setting { section: self.section@, key: self.key@, value: self.value@ }
    }
}

/// What a list of stored settings says.
pub open spec fn all_stored(v: Seq<Stored>) -> Seq<Setting> {
    v.map_values(|x: Stored| x@)
}

/// What the configuration file says.
pub struct Config {
    pub values: Vec<Stored>,
    pub hotkey_mods: u32,
    pub hotkey_vk: u32,
}

impl View for Config {
    type V = Seq<Setting>;

    open spec fn view(&self) -> Seq<Setting> {
        all_stored(self.values@)
    }
}

/// Where a key stands; the length of the list when it does not.
fn place(values: &Vec<Stored>, section: &str, key: &str) -> (k: usize)
    ensures
        k <= values@.len(),
        k == place_of(all_stored(values@), section@, key@),
{
    let mut k: usize = 0;
    while k < values.len() && !(same(values[k].section.as_str(), section) && same(
        values[k].key.as_str(),
        key,
    ))
        invariant
            k <= values@.len(),
            forall|j: int|
                0 <= j < k ==> !((#[trigger] all_stored(values@)[j]).section == section@
                    && all_stored(values@)[j].key == key@),
        decreases values@.len() - k,
    {
        k += 1;
    }
    proof {
        if k < values@.len() {
            assert(all_stored(values@)[k as int] == values@[k as int]@);
        }
        lemma_place_of_is(all_stored(values@), section@, key@, k as int);
    }
    k
}

fn parse(chars: &[char]) -> (values: Vec<Stored>)
    ensures
        all_stored(values@) == settings_of(chars@),
{
    let lines = split(chars, '\n');
    let ghost ls = pieces::texts(lines@);
    let mut values: Vec<Stored> = Vec::new();
    let mut section = String::new();
    let mut i: usize = 0;
    assert(all_stored(values@) =~= settled(pairs_of(Seq::empty(), ls.take(0))));
    assert(section@ =~= section_after(Seq::empty(), ls.take(0)));
    while i < lines.len()
        invariant
            i <= lines@.len(),
            ls == pieces::texts(lines@),
            all_stored(values@) == settled(pairs_of(Seq::empty(), ls.take(i as int))),
            section@ == section_after(Seq::empty(), ls.take(i as int)),
        decreases lines@.len() - i,
    {
        proof {
            assert(ls.take(i + 1).drop_last() =~= ls.take(i as int));
            assert(ls.take(i + 1).last() == lines@[i as int]@);
        }
        match read_line(lines[i].as_slice()) {
            Statement::Header(name) => {
                section = name;
            },
            Statement::Pair(key, value) => {
                let k: usize = place(&values, section.as_str(), key.as_str());
                let stored = Stored { section: section.clone(), key, value };
                let ghost before = all_stored(values@);
                let ghost pairs = pairs_of(Seq::empty(), ls.take(i as int));
                proof {
                    assert(pairs_of(Seq::empty(), ls.take(i + 1)) == pairs.push(stored@));
                    assert(pairs.push(stored@).drop_last() =~= pairs);
                }
                if k < values.len() {
                    values.set(k, stored);
                    assert(all_stored(values@) =~= before.update(k as int, stored@));
                } else {
                    values.push(stored);
                    assert(all_stored(values@) =~= before.push(stored@));
                }
            },
            Statement::Other => {},
        }
        i += 1;
    }
    assert(ls.take(ls.len() as int) =~= ls);
    values
}

/// The values of a section, in order.
pub open spec fn values_in(settings: Seq<Setting>, section: Seq<char>) -> Seq<Seq<char>>
    decreases settings.len(),
{
    if settings.len() == 0 {
        Seq::empty()
    } else {
        let before = values_in(settings.drop_last(), section);
        if settings.last().section == section {
            before.push(settings.last().value)
        } else {
            before
        }
    }
}

/// The keys and values of a section, in order.
pub open spec fn entries_in(settings: Seq<Setting>, section: Seq<char>) -> Seq<
    (Seq<char>, Seq<char>),
>
    decreases settings.len(),
{
    if settings.len() == 0 {
        Seq::empty()
    } else {
        let before = entries_in(settings.drop_last(), section);
        if settings.last().section == section {
            before.push((settings.last().key, settings.last().value))
        } else {
            before
        }
    }
}

/// What follows the prefix and a dot in a section's name.
pub open spec fn slug_of(section: Seq<char>, prefix: Seq<char>) -> Option<Seq<char>> {
    let n = prefix.len() as int;
    if section.len() > n + 1 && section.take(n) == prefix && section[n] == '.' {
        Some(section.skip(n + 1))
    } else {
        None
    }
}

/// The sub-tables of a prefix, in order of first mention: each its slug and
/// its keys and values.
pub open spec fn slugs_in(settings: Seq<Setting>, prefix: Seq<char>) -> Seq<Seq<char>>
    decreases settings.len(),
{
    if settings.len() == 0 {
        Seq::empty()
    } else {
        let before = slugs_in(settings.drop_last(), prefix);
        match slug_of(settings.last().section, prefix) {
            Some(slug) => if before.contains(slug) {
                before
            } else {
                before.push(slug)
            },
            None => before,
        }
    }
}

/// The section of a sub-table.
pub open spec fn section_of(prefix: Seq<char>, slug: Seq<char>) -> Seq<char> {
    prefix.push('.') + slug
}

/// The key-value pairs a list of strings holds.
pub open spec fn entry_views(v: Seq<(String, String)>) -> Seq<(Seq<char>, Seq<char>)> {
    v.map_values(|e: (String, String)| (e.0@, e.1@))
}

/// A value that counts as true.
pub open spec fn is_true(value: Seq<char>) -> bool {
    text::same_ignoring_case(value, "true"@)
}

/// A flag: its value, or `default` when it is not set.
pub open spec fn flag_of(
    settings: Seq<Setting>,
    section: Seq<char>,
    key: Seq<char>,
    default: bool,
) -> bool {
    match lookup(settings, section, key) {
        Some(v) => is_true(v),
        None => default,
    }
}

/// What there is where the configuration file belongs.
pub enum Found {
    /// There is no place for the file.
    Nowhere,
    /// The file is missing.
    Absent,
    Text(String),
    /// There is a file, but it cannot be read as text.
    Unreadable,
}

/// What is read in place of the file.
pub open spec fn text_taken(found: Found) -> Seq<char> {
    match found {
        Found::Nowhere => Seq::empty(),
        Found::Absent | Found::Unreadable => DEFAULT_FILE@,
        Found::Text(s) => s@,
    }
}

/// What becomes of the configuration file.
pub struct Taken {
    /// What is read in its place.
    pub text: String,
    /// Whether the file is to be written, with that text.
    pub create: bool,
    /// Whether the file may be rewritten, starting from that text.
    pub rewritable: bool,
}

/// What is read, and whether the file is written: only a missing one is
/// created. A file that is there but cannot be read belongs to the user and is
/// left alone.
pub fn read_or_create(found: &Found) -> (r: Taken)
    ensures
        r.text@ == text_taken(*found),
        r.create == (found is Absent),
        r.rewritable == (found is Absent || found is Text),
{
    match found {
        Found::Nowhere => Taken { text: String::new(), create: false, rewritable: false },
        Found::Absent => Taken { text: DEFAULT_FILE.to_owned(), create: true, rewritable: true },
        Found::Text(s) => Taken { text: s.clone(), create: false, rewritable: true },
        Found::Unreadable => Taken {
            text: DEFAULT_FILE.to_owned(),
            create: false,
            rewritable: false,
        },
    }
}

impl Config {
    /// The configuration in force.
    pub fn load(found: &Found) -> (c: Config)
        ensures
            c@ == settings_of(text_taken(*found)),
            (c.hotkey_mods, c.hotkey_vk) == hotkey_in_force(c@),
    {
        let taken = read_or_create(found);
        Config::from_text(taken.text.as_str())
    }

    /// The configuration a text describes.
    pub fn from_text(s: &str) -> (c: Config)
        ensures
            c@ == settings_of(s@),
            unique(c@),
            (c.hotkey_mods, c.hotkey_vk) == hotkey_in_force(c@),
    {
        let chars = chars_of(s);
        let values = parse(chars.as_slice());
        proof {
            law_no_key_is_set_twice(pairs_of(Seq::empty(), pieces::split_on(s@, '\n')));
        }
        let bare = Config { values, hotkey_mods: DEFAULT_HOTKEY_MODS, hotkey_vk: DEFAULT_HOTKEY_VK };
        match bare.hotkey() {
            Some((hotkey_mods, hotkey_vk)) => Config { values: bare.values, hotkey_mods, hotkey_vk },
            None => bare,
        }
    }

    fn hotkey(&self) -> (r: Option<(u32, u32)>)
        ensures
            r == hotkey_of(self@),
    {
        let mods = match self.get("hotkey", "modifiers") {
            Some(m) => m,
            None => {
                return None;
            },
        };
        let key = match self.get("hotkey", "key") {
            Some(k) => k,
            None => {
                return None;
            },
        };
        match (parse_mods(mods), parse_key(key)) {
            (Some(m), Some(k)) => Some((m, k)),
            _ => None,
        }
    }

    /// The value of a key.
    pub fn get(&self, section: &str, key: &str) -> (r: Option<&str>)
        ensures
            match r {
                Some(v) => lookup(self@, section@, key@) == Some(v@),
                None => lookup(self@, section@, key@) is None,
            },
    {
        let k: usize = place(&self.values, section, key);
        if k < self.values.len() {
            assert(self@[k as int] == self.values@[k as int]@);
            Some(self.values[k].value.as_str())
        } else {
            None
        }
    }

    /// A flag, with what it is when the file does not mention it.
    pub fn flag(&self, section: &str, key: &str, default: bool) -> (r: bool)
        ensures
            r == flag_of(self@, section@, key@, default),
    {
        match self.get(section, key) {
            Some(v) => eq_ignore_ascii_case(v, "true"),
            None => default,
        }
    }

    /// Plugins are enabled unless the file says otherwise.
    pub fn plugin_enabled(&self, id: &str) -> (r: bool)
        ensures
            r == flag_of(self@, "plugins"@, text::lowered(id@), true),
    {
        let id = lower(id);
        self.flag("plugins", id.as_str(), true)
    }

    /// A flag of the `[general]` section.
    pub fn general_flag(&self, key: &str, default: bool) -> (r: bool)
        ensures
            r == flag_of(self@, "general"@, key@, default),
    {
        self.flag("general", key, default)
    }

    /// Whether what is behind the window shows through it, frosted. It does,
    /// unless the file asks for none of it.
    pub fn acrylic(&self) -> (r: bool)
        ensures
            r == frosted(self@),
    {
        match self.get("appearance", "backdrop") {
            Some(v) => !eq_ignore_ascii_case(v, "none"),
            None => true,
        }
    }

    /// The values of a section, in order. The keys are only there because a
    /// line needs one.
    pub fn list_values(&self, section: &str) -> (out: Vec<String>)
        ensures
            pieces::strings(out@) == values_in(self@, section@),
    {
        let ghost s = self@;
        let mut out: Vec<String> = Vec::new();
        let mut i: usize = 0;
        assert(pieces::strings(out@) =~= values_in(s.take(0), section@));
        while i < self.values.len()
            invariant
                i <= self.values@.len(),
                s == self@,
                pieces::strings(out@) == values_in(s.take(i as int), section@),
            decreases self.values@.len() - i,
        {
            proof {
                assert(s.take(i + 1).drop_last() =~= s.take(i as int));
                assert(s.take(i + 1).last() == self.values@[i as int]@);
            }
            if same(self.values[i].section.as_str(), section) {
                let ghost before = pieces::strings(out@);
                let v = self.values[i].value.clone();
                out.push(v);
                assert(pieces::strings(out@) =~= before.push(v@));
            }
            i += 1;
        }
        assert(s.take(s.len() as int) =~= s);
        out
    }

    /// The keys and values of a section, in order.
    pub fn entries(&self, section: &str) -> (out: Vec<(String, String)>)
        ensures
            entry_views(out@) == entries_in(self@, section@),
    {
        let ghost s = self@;
        let mut out: Vec<(String, String)> = Vec::new();
        let mut i: usize = 0;
        assert(entry_views(out@) =~= entries_in(s.take(0), section@));
        while i < self.values.len()
            invariant
                i <= self.values@.len(),
                s == self@,
                entry_views(out@) == entries_in(s.take(i as int), section@),
            decreases self.values@.len() - i,
        {
            proof {
                assert(s.take(i + 1).drop_last() =~= s.take(i as int));
                assert(s.take(i + 1).last() == self.values@[i as int]@);
            }
            if same(self.values[i].section.as_str(), section) {
                let ghost before = entry_views(out@);
                let e = (self.values[i].key.clone(), self.values[i].value.clone());
                out.push(e);
                assert(entry_views(out@) =~= before.push((e.0@, e.1@)));
            }
            i += 1;
        }
        assert(s.take(s.len() as int) =~= s);
        out
    }

    /// The aliases: each with what it stands for.
    pub fn aliases_map(&self) -> (out: Vec<(String, String)>)
        ensures
            entry_views(out@) == entries_in(self@, "aliases"@),
    {
        self.entries("aliases")
    }

    /// The slugs of the sub-tables `[prefix.slug]`, in order.
    fn slugs(&self, prefix: &str) -> (out: Vec<String>)
        ensures
            pieces::strings(out@) == slugs_in(self@, prefix@),
    {
        let ghost s = self@;
        let mut out: Vec<String> = Vec::new();
        let mut i: usize = 0;
        assert(pieces::strings(out@) =~= slugs_in(s.take(0), prefix@));
        while i < self.values.len()
            invariant
                i <= self.values@.len(),
                s == self@,
                pieces::strings(out@) == slugs_in(s.take(i as int), prefix@),
            decreases self.values@.len() - i,
        {
            proof {
                assert(s.take(i + 1).drop_last() =~= s.take(i as int));
                assert(s.take(i + 1).last() == self.values@[i as int]@);
            }
            match slug_in(self.values[i].section.as_str(), prefix) {
                Some(slug) => {
                    let ghost before = pieces::strings(out@);
                    if !holds_string(&out, slug.as_str()) {
                        out.push(slug);
                        assert(pieces::strings(out@) =~= before.push(slug@));
                    }
                },
                None => {},
            }
            i += 1;
        }
        assert(s.take(s.len() as int) =~= s);
        out
    }

    /// The sub-tables `[prefix.slug]`: each slug with its keys and values.
    pub fn subtables(&self, prefix: &str) -> (out: Vec<(String, Vec<(String, String)>)>)
        ensures
            subtable_views(out@) == subtables_in(self@, prefix@),
    {
        let slugs = self.slugs(prefix);
        let ghost want = subtables_in(self@, prefix@);
        let mut out: Vec<(String, Vec<(String, String)>)> = Vec::new();
        let mut i: usize = 0;
        assert(subtable_views(out@) =~= want.take(0));
        while i < slugs.len()
            invariant
                i <= slugs@.len(),
                pieces::strings(slugs@) == slugs_in(self@, prefix@),
                want == subtables_in(self@, prefix@),
                subtable_views(out@) == want.take(i as int),
            decreases slugs@.len() - i,
        {
            let dotted = pieces::concat(prefix, ".");
            let section = pieces::concat(dotted.as_str(), slugs[i].as_str());
            proof {
                reveal_strlit(".");
                assert("."@ =~= seq!['.']);
                assert(dotted@ =~= prefix@.push('.'));
                assert(pieces::strings(slugs@)[i as int] == slugs@[i as int]@);
            }
            let entries = self.entries(section.as_str());
            let ghost before = subtable_views(out@);
            let table = (slugs[i].clone(), entries);
            proof {
                assert(want[i as int] == (table.0@, entry_views(table.1@)));
                assert(want.take(i + 1) =~= want.take(i as int).push(want[i as int]));
            }
            out.push(table);
            assert(subtable_views(out@) =~= before.push((table.0@, entry_views(table.1@))));
            i += 1;
        }
        assert(want.take(want.len() as int) =~= want);
        out
    }
}

/// The sub-tables of a prefix: each slug with its keys and values.
pub open spec fn subtables_in(settings: Seq<Setting>, prefix: Seq<char>) -> Seq<
    (Seq<char>, Seq<(Seq<char>, Seq<char>)>),
> {
    slugs_in(settings, prefix).map_values(
        |slug: Seq<char>| (slug, entries_in(settings, section_of(prefix, slug))),
    )
}

pub open spec fn subtable_views(v: Seq<(String, Vec<(String, String)>)>) -> Seq<
    (Seq<char>, Seq<(Seq<char>, Seq<char>)>),
> {
    v.map_values(|t: (String, Vec<(String, String)>)| (t.0@, entry_views(t.1@)))
}

/// What follows the prefix and a dot in a section's name.
fn slug_in(section: &str, prefix: &str) -> (r: Option<String>)
    ensures
        match r {
            Some(slug) => slug_of(section@, prefix@) == Some(slug@),
            None => slug_of(section@, prefix@) is None,
        },
{
    let s = chars_of(section);
    let p = chars_of(prefix);
    let n: usize = p.len();
    if s.len() > n && s.len() - n > 1 && pieces::is_at(s.as_slice(), p.as_slice(), 0) && s[n]
        == '.' {
        assert(s@.subrange(0, n as int) =~= section@.take(n as int));
        let rest = slice_of(s.as_slice(), n + 1, s.len());
        assert(rest@ =~= section@.skip(n + 1));
        Some(string_of(rest.as_slice()))
    } else {
        proof {
            if slug_of(section@, prefix@) is Some {
                assert(s@.subrange(0, n as int) =~= section@.take(n as int));
            }
        }
        None
    }
}

/// Whether a list of strings has one.
pub fn holds_string(v: &Vec<String>, s: &str) -> (r: bool)
    ensures
        r == pieces::strings(v@).contains(s@),
{
    let mut i: usize = 0;
    while i < v.len()
        invariant
            i <= v@.len(),
            forall|j: int| 0 <= j < i ==> #[trigger] pieces::strings(v@)[j] != s@,
        decreases v@.len() - i,
    {
        if same(v[i].as_str(), s) {
            assert(pieces::strings(v@)[i as int] == s@);
            return true;
        }
        i += 1;
    }
    false
}

} // verus!
