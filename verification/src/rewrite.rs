//! Changing the configuration file by line surgery.
//!
//! Only the `key = value` lines of one section are ever taken out or put in.
//! Every other line - other sections, headings, comments - stays as it is.
use vstd::prelude::*;
use vstd::string::*;
use vstd::utf8::*;

use crate::config::{
    self, comment_of, comment_start, holds_string, read_line, Config, Line, Setting, Statement,
};
use crate::numbers;
use crate::pieces::{self, append, join, split};
use crate::text::{
    self, chars_of, control, eq_ignore_ascii_case, same, slice_of, string_of, trim,
};

verus! {

// ---- what may be written ------------------------------------------------------------

/// A character a bare key may hold.
pub open spec fn key_char(c: char) -> bool {
    ('a' <= c <= 'z') || text::is_digit(c) || c == '-' || c == '_' || c == '.'
}

/// Small letters, digits, `-`, `_` and `.` only.
pub open spec fn bare_key(s: Seq<char>) -> bool {
    forall|i: int| 0 <= i < s.len() ==> key_char(#[trigger] s[i])
}

/// `s` made into a bare key: letters small, spaces as `-`, and anything else
/// that does not belong left out.
pub open spec fn as_key(s: Seq<char>) -> Seq<char>
    decreases s.len(),
{
    if s.len() == 0 {
        s
    } else {
        let before = as_key(s.drop_last());
        let c = text::ascii_lower(s.last());
        if key_char(c) {
            before.push(c)
        } else if c == ' ' {
            before.push('-')
        } else {
            before
        }
    }
}

/// Whatever is typed becomes a bare key, and a bare key stays what it is.
pub proof fn law_sanitized_keys_are_bare(s: Seq<char>)
    ensures
        bare_key(as_key(s)),
        bare_key(s) ==> as_key(s) == s,
    decreases s.len(),
{
    if s.len() > 0 {
        let t = s.drop_last();
        law_sanitized_keys_are_bare(t);
        let r = as_key(s);
        let before = as_key(t);
        assert forall|i: int| 0 <= i < r.len() implies key_char(#[trigger] r[i]) by {
            if i < before.len() {
                assert(r[i] == before[i]);
            }
        }
        if bare_key(s) {
            assert(bare_key(t)) by {
                assert forall|i: int| 0 <= i < t.len() implies key_char(#[trigger] t[i]) by {
                    assert(t[i] == s[i]);
                }
            }
            assert(key_char(s[s.len() - 1]));
            assert(before.push(s.last()) =~= s);
        }
    }
}

/// A name made into a bare key.
pub fn sanitize_key(s: &str) -> (r: String)
    ensures
        r@ == as_key(text::trimmed(s@)),
{
    let chars = chars_of(s);
    let t = trim(chars.as_slice());
    let mut out: Vec<char> = Vec::new();
    let mut i: usize = 0;
    while i < t.len()
        invariant
            i <= t@.len(),
            out@ == as_key(t@.take(i as int)),
        decreases t@.len() - i,
    {
        assert(t@.take(i + 1).drop_last() =~= t@.take(i as int));
        let c = text::small(t[i]);
        if ('a' <= c && c <= 'z') || ('0' <= c && c <= '9') || c == '-' || c == '_' || c == '.' {
            out.push(c);
        } else if c == ' ' {
            out.push('-');
        }
        i += 1;
    }
    assert(t@.take(t@.len() as int) =~= t@);
    string_of(out.as_slice())
}

/// `s` without control characters and single quotes.
pub open spec fn without_quotes(s: Seq<char>) -> Seq<char>
    decreases s.len(),
{
    if s.len() == 0 {
        s
    } else if s.last() == '\'' || text::is_control(s.last()) {
        without_quotes(s.drop_last())
    } else {
        without_quotes(s.drop_last()).push(s.last())
    }
}

/// A value made fit to stand between single quotes on one line.
pub fn sanitize_value(s: &str) -> (r: String)
    ensures
        r@ == text::trimmed(without_quotes(s@)),
{
    let t = chars_of(s);
    let mut out: Vec<char> = Vec::new();
    let mut i: usize = 0;
    while i < t.len()
        invariant
            i <= t@.len(),
            out@ == without_quotes(t@.take(i as int)),
        decreases t@.len() - i,
    {
        assert(t@.take(i + 1).drop_last() =~= t@.take(i as int));
        if !(t[i] == '\'' || control(t[i])) {
            out.push(t[i]);
        }
        i += 1;
    }
    assert(t@.take(t@.len() as int) =~= t@);
    let r = trim(out.as_slice());
    string_of(r.as_slice())
}

/// A value that reads back as it is written: one line, and not both kinds of
/// quotes in it.
pub open spec fn quotable(v: Seq<char>) -> bool {
    !v.contains('\n') && !(v.contains('\'') && v.contains('"'))
}

proof fn lemma_without_quotes(s: Seq<char>)
    ensures
        !without_quotes(s).contains('\''),
        !without_quotes(s).contains('\n'),
    decreases s.len(),
{
    if s.len() > 0 {
        lemma_without_quotes(s.drop_last());
        let before = without_quotes(s.drop_last());
        let r = without_quotes(s);
        if r.contains('\'') {
            let k = choose|k: int| 0 <= k < r.len() && r[k] == '\'';
            assert(before[k] == '\'');
        }
        if r.contains('\n') {
            let k = choose|k: int| 0 <= k < r.len() && r[k] == '\n';
            assert(before[k] == '\n');
        }
    }
}

proof fn lemma_trimmed_is_part(s: Seq<char>, c: char)
    requires
        !s.contains(c),
    ensures
        !text::trimmed(s).contains(c),
    decreases s.len(),
{
    if s.len() > 0 && text::is_white(s.first()) {
        let t = s.drop_first();
        if t.contains(c) {
            let k = choose|k: int| 0 <= k < t.len() && t[k] == c;
            assert(s[k + 1] == c);
        }
        lemma_trimmed_is_part(t, c);
    } else if s.len() > 0 && text::is_white(s.last()) {
        let t = s.drop_last();
        if t.contains(c) {
            let k = choose|k: int| 0 <= k < t.len() && t[k] == c;
            assert(s[k] == c);
        }
        lemma_trimmed_is_part(t, c);
    }
}

/// What comes out of cleaning a value can be written and read back.
pub proof fn law_sanitized_values_are_quotable(s: Seq<char>)
    ensures
        quotable(text::trimmed(without_quotes(s))),
{
    lemma_without_quotes(s);
    lemma_trimmed_is_part(without_quotes(s), '\'');
    lemma_trimmed_is_part(without_quotes(s), '\n');
}

// ---- lines to put in ------------------------------------------------------------------

/// A value between quotes: single ones, unless it holds such a quote itself
/// and no double one.
pub open spec fn quoted(v: Seq<char>) -> Seq<char> {
    let q = if v.contains('\'') && !v.contains('"') {
        '"'
    } else {
        '\''
    };
    seq![q] + v + seq![q]
}

/// `key = value` as a line.
pub open spec fn pair_line(key: Seq<char>, value: Seq<char>) -> Seq<char> {
    key + seq![' ', '=', ' '] + value
}

/// The heading of a section.
pub open spec fn heading(section: Seq<char>) -> Seq<char> {
    seq!['['] + section + seq![']']
}

fn quote(v: &str) -> (out: Vec<char>)
    ensures
        out@ == quoted(v@),
{
    let chars = chars_of(v);
    let single = pieces::find(chars.as_slice(), '\'') < chars.len();
    let double = pieces::find(chars.as_slice(), '"') < chars.len();
    proof {
        pieces::lemma_first_of(v@, '\'');
        pieces::lemma_first_of(v@, '"');
    }
    let q = if single && !double {
        '"'
    } else {
        '\''
    };
    let mut out: Vec<char> = Vec::new();
    out.push(q);
    append(&mut out, chars.as_slice());
    out.push(q);
    assert(out@ =~= quoted(v@));
    out
}

fn pair(key: &[char], value: &[char]) -> (out: Vec<char>)
    ensures
        out@ == pair_line(key@, value@),
{
    let mut out: Vec<char> = Vec::new();
    append(&mut out, key);
    out.push(' ');
    out.push('=');
    out.push(' ');
    append(&mut out, value);
    assert(out@ =~= pair_line(key@, value@));
    out
}

// ---- surgery ----------------------------------------------------------------------------

/// Which `key = value` lines of a section are meant.
#[verifier::ext_equal]
pub struct Choice {
    pub all: bool,
    pub keys: Seq<Seq<char>>,
    pub values: Seq<Seq<char>>,
    /// Keys that are left alone whatever their value.
    pub spared: Seq<Seq<char>>,
}

impl Choice {
    pub open spec fn picks(self, key: Seq<char>, value: Seq<char>) -> bool {
        !self.spared.contains(key) && (self.all || self.keys.contains(key) || self.values.contains(
            value,
        ))
    }
}

/// Which `key = value` lines of a section are meant, in strings.
pub struct Pick {
    pub all: bool,
    pub keys: Vec<String>,
    pub values: Vec<String>,
    pub spared: Vec<String>,
}

impl View for Pick {
    type V = Choice;

    open spec fn view(&self) -> Choice {
        Choice {
            all: self.all,
            keys: pieces::strings(self.keys@),
            values: pieces::strings(self.values@),
            spared: pieces::strings(self.spared@),
        }
    }
}

/// A line is a picked `key = value` of the section, `current` being in force.
pub open spec fn goes(line: Seq<char>, current: Seq<char>, section: Seq<char>, c: Choice) -> bool {
    current == section && (config::line_of(line) matches Line::Pair(key, value) && c.picks(
        key,
        value,
    ))
}

/// What is left of a line whose setting is taken out: its comment, on a line of
/// its own, or nothing.
pub open spec fn remains(line: Seq<char>) -> Seq<Seq<char>> {
    if config::comment_in(line).len() == 0 {
        Seq::empty()
    } else {
        seq![config::comment_in(line)]
    }
}

/// The lines without the picked settings of the section.
pub open spec fn kept(
    start: Seq<char>,
    lines: Seq<Seq<char>>,
    section: Seq<char>,
    c: Choice,
) -> Seq<Seq<char>>
    decreases lines.len(),
{
    if lines.len() == 0 {
        lines
    } else {
        let before = kept(start, lines.drop_last(), section, c);
        if goes(lines.last(), config::section_after(start, lines.drop_last()), section, c) {
            before + remains(lines.last())
        } else {
            before.push(lines.last())
        }
    }
}

/// Where the section's heading first stands; the number of lines when it does
/// not.
pub open spec fn heading_at(lines: Seq<Seq<char>>, section: Seq<char>) -> int {
    pieces::first_where(lines, |l: Seq<char>| config::line_of(l) == Line::Header(section))
}

/// The lines with `added` right behind the section's heading, or, where there
/// is none, with the heading and `added` at the end.
pub open spec fn placed(
    lines: Seq<Seq<char>>,
    section: Seq<char>,
    added: Seq<Seq<char>>,
) -> Seq<Seq<char>> {
    let h = heading_at(lines, section);
    if h < lines.len() {
        lines.take(h + 1) + added + lines.skip(h + 1)
    } else if added.len() == 0 {
        lines
    } else {
        body(lines).push(heading(section)) + added.push(Seq::empty())
    }
}

/// The lines without the empty one behind the last newline.
pub open spec fn body(lines: Seq<Seq<char>>) -> Seq<Seq<char>> {
    if lines.len() > 0 && lines.last().len() == 0 {
        lines.drop_last()
    } else {
        lines
    }
}

/// A text whose section lost the picked lines and got the `added` ones.
pub open spec fn edited(
    s: Seq<char>,
    section: Seq<char>,
    c: Choice,
    added: Seq<Seq<char>>,
) -> Seq<char> {
    pieces::joined(
        placed(kept(Seq::empty(), pieces::split_on(s, '\n'), section, c), section, added),
        '\n',
    )
}

/// A line sets the key of the section, `current` being in force.
pub open spec fn sets(
    line: Seq<char>,
    current: Seq<char>,
    section: Seq<char>,
    key: Seq<char>,
) -> bool {
    current == section && (config::line_of(line) matches Line::Pair(k, _) && k == key)
}

/// Some line sets the key of the section.
pub open spec fn is_set(
    start: Seq<char>,
    lines: Seq<Seq<char>>,
    section: Seq<char>,
    key: Seq<char>,
) -> bool
    decreases lines.len(),
{
    lines.len() > 0 && (is_set(start, lines.drop_last(), section, key) || sets(
        lines.last(),
        config::section_after(start, lines.drop_last()),
        section,
        key,
    ))
}

/// `s` without the white space at its end.
pub open spec fn trimmed_end(s: Seq<char>) -> Seq<char>
    decreases s.len(),
{
    if s.len() > 0 && text::is_white(s.last()) {
        trimmed_end(s.drop_last())
    } else {
        s
    }
}

/// What follows the statement of a line: white space and its comment.
pub open spec fn tail_of(line: Seq<char>) -> Seq<char> {
    line.skip(trimmed_end(config::uncommented(line)).len() as int)
}

/// The lines with every line that sets the key setting it to `w`. What follows
/// its statement stays.
pub open spec fn retold(
    start: Seq<char>,
    lines: Seq<Seq<char>>,
    section: Seq<char>,
    key: Seq<char>,
    w: Seq<char>,
) -> Seq<Seq<char>>
    decreases lines.len(),
{
    if lines.len() == 0 {
        lines
    } else {
        let line = lines.last();
        let current = config::section_after(start, lines.drop_last());
        retold(start, lines.drop_last(), section, key, w).push(
            if sets(line, current, section, key) {
                pair_line(key, w) + tail_of(line)
            } else {
                line
            },
        )
    }
}

/// A text in which the key of a section is set to `w`: where it is set, or else
/// right behind the section's heading.
pub open spec fn with_value(
    s: Seq<char>,
    section: Seq<char>,
    key: Seq<char>,
    w: Seq<char>,
) -> Seq<char> {
    let lines = pieces::split_on(s, '\n');
    if is_set(Seq::empty(), lines, section, key) {
        pieces::joined(retold(Seq::empty(), lines, section, key, w), '\n')
    } else {
        edited(s, section, nothing(), seq![pair_line(key, w)])
    }
}

/// No line of a section.
pub open spec fn nothing() -> Choice {
    Choice { all: false, keys: Seq::empty(), values: Seq::empty(), spared: Seq::empty() }
}

/// The lines without the section's heading and settings.
pub open spec fn without_section(
    start: Seq<char>,
    lines: Seq<Seq<char>>,
    section: Seq<char>,
) -> Seq<Seq<char>>
    decreases lines.len(),
{
    if lines.len() == 0 {
        lines
    } else {
        let before = without_section(start, lines.drop_last(), section);
        let current = config::section_after(start, lines.drop_last());
        if config::line_of(lines.last()) == Line::Header(section) || (current == section
            && config::line_of(lines.last()) is Pair) {
            before + remains(lines.last())
        } else {
            before.push(lines.last())
        }
    }
}

/// A text without a section, its comments left in place.
pub open spec fn removed(s: Seq<char>, section: Seq<char>) -> Seq<char> {
    pieces::joined(
        without_section(Seq::empty(), pieces::split_on(s, '\n'), section),
        '\n',
    )
}

fn copy(chars: &[char]) -> (out: Vec<char>)
    ensures
        out@ == chars@,
{
    let out = slice_of(chars, 0, chars.len());
    assert(out@ =~= chars@);
    out
}

/// Appends what is left of a line whose setting is taken out.
fn push_remains(out: &mut Vec<Vec<char>>, line: &[char])
    ensures
        pieces::texts(final(out)@) == pieces::texts(old(out)@) + remains(line@),
{
    let comment = comment_of(line);
    if comment.len() > 0 {
        out.push(comment);
        assert(pieces::texts(out@) =~= pieces::texts(old(out)@) + remains(line@));
    } else {
        assert(pieces::texts(out@) =~= pieces::texts(old(out)@) + remains(line@));
    }
}

fn keep(lines: &Vec<Vec<char>>, section: &str, pick: &Pick) -> (out: Vec<Vec<char>>)
    ensures
        pieces::texts(out@) == kept(Seq::empty(), pieces::texts(lines@), section@, pick@),
{
    let ghost ls = pieces::texts(lines@);
    let mut out: Vec<Vec<char>> = Vec::new();
    let mut current = String::new();
    let mut i: usize = 0;
    assert(current@ =~= Seq::empty());
    assert(pieces::texts(out@) =~= ls.take(0));
    while i < lines.len()
        invariant
            i <= lines@.len(),
            ls == pieces::texts(lines@),
            current@ == config::section_after(Seq::empty(), ls.take(i as int)),
            pieces::texts(out@) == kept(Seq::empty(), ls.take(i as int), section@, pick@),
        decreases lines@.len() - i,
    {
        proof {
            assert(ls.take(i + 1).drop_last() =~= ls.take(i as int));
            assert(ls.take(i + 1).last() == lines@[i as int]@);
        }
        let mut goes_out = false;
        let mut next: Option<String> = None;
        match read_line(lines[i].as_slice()) {
            Statement::Header(name) => {
                next = Some(name);
            },
            Statement::Pair(key, value) => {
                goes_out = same(current.as_str(), section) && !holds_string(
                    &pick.spared,
                    key.as_str(),
                ) && (pick.all || holds_string(&pick.keys, key.as_str()) || holds_string(
                    &pick.values,
                    value.as_str(),
                ));
            },
            Statement::Other => {},
        }
        if !goes_out {
            let ghost before = pieces::texts(out@);
            let line = copy(lines[i].as_slice());
            out.push(line);
            assert(pieces::texts(out@) =~= before.push(line@));
        } else {
            push_remains(&mut out, lines[i].as_slice());
        }
        if let Some(name) = next {
            current = name;
        }
        i += 1;
    }
    assert(ls.take(ls.len() as int) =~= ls);
    out
}

fn find_heading(lines: &Vec<Vec<char>>, section: &str) -> (h: usize)
    ensures
        h <= lines@.len(),
        h == heading_at(pieces::texts(lines@), section@),
{
    let ghost ls = pieces::texts(lines@);
    let mut h: usize = 0;
    assert(ls.skip(0) =~= ls);
    while h < lines.len()
        invariant
            h <= lines@.len(),
            ls == pieces::texts(lines@),
            heading_at(ls, section@) == h + heading_at(ls.skip(h as int), section@),
        decreases lines@.len() - h,
    {
        assert(ls.skip(h as int)[0] == lines@[h as int]@);
        let hit = match read_line(lines[h].as_slice()) {
            Statement::Header(name) => same(name.as_str(), section),
            _ => false,
        };
        if hit {
            return h;
        }
        assert(ls.skip(h as int).drop_first() =~= ls.skip(h + 1));
        h += 1;
    }
    h
}

fn head_line(section: &str) -> (out: Vec<char>)
    ensures
        out@ == heading(section@),
{
    let name = chars_of(section);
    let mut out: Vec<char> = Vec::new();
    out.push('[');
    append(&mut out, name.as_slice());
    out.push(']');
    assert(out@ =~= heading(section@));
    out
}

/// Appends copies of the lines from `a` up to `b`.
fn push_lines(out: &mut Vec<Vec<char>>, lines: &Vec<Vec<char>>, a: usize, b: usize)
    requires
        a <= b <= lines@.len(),
    ensures
        pieces::texts(final(out)@) == pieces::texts(old(out)@) + pieces::texts(lines@).subrange(
            a as int,
            b as int,
        ),
{
    let ghost ls = pieces::texts(lines@);
    let ghost start = pieces::texts(out@);
    let mut i: usize = a;
    assert(pieces::texts(out@) =~= start + ls.subrange(a as int, a as int));
    while i < b
        invariant
            a <= i <= b <= lines@.len(),
            ls == pieces::texts(lines@),
            pieces::texts(out@) == start + ls.subrange(a as int, i as int),
        decreases b - i,
    {
        let ghost before = pieces::texts(out@);
        let line = copy(lines[i].as_slice());
        out.push(line);
        assert(pieces::texts(out@) =~= before.push(line@));
        assert(pieces::texts(out@) =~= start + ls.subrange(a as int, i + 1));
        i += 1;
    }
}

fn place(lines: &Vec<Vec<char>>, section: &str, added: &Vec<Vec<char>>) -> (out: Vec<Vec<char>>)
    ensures
        pieces::texts(out@) == placed(pieces::texts(lines@), section@, pieces::texts(added@)),
{
    let ghost ls = pieces::texts(lines@);
    let ghost ad = pieces::texts(added@);
    let n: usize = lines.len();
    let h: usize = find_heading(lines, section);
    let mut out: Vec<Vec<char>> = Vec::new();
    assert(ad.subrange(0, ad.len() as int) =~= ad);
    if h < n {
        push_lines(&mut out, lines, 0, h + 1);
        push_lines(&mut out, added, 0, added.len());
        push_lines(&mut out, lines, h + 1, n);
        assert(pieces::texts(out@) =~= placed(ls, section@, ad));
        return out;
    }
    if added.len() == 0 {
        push_lines(&mut out, lines, 0, n);
        assert(pieces::texts(out@) =~= ls);
        return out;
    }
    assert(n > 0 ==> ls.last() == lines@[n - 1]@);
    let end: usize = if n > 0 && lines[n - 1].len() == 0 {
        n - 1
    } else {
        n
    };
    push_lines(&mut out, lines, 0, end);
    let ghost before = pieces::texts(out@);
    let head = head_line(section);
    out.push(head);
    assert(pieces::texts(out@) =~= before.push(head@));
    push_lines(&mut out, added, 0, added.len());
    let ghost before = pieces::texts(out@);
    let blank: Vec<char> = Vec::new();
    out.push(blank);
    assert(pieces::texts(out@) =~= before.push(blank@));
    assert(pieces::texts(out@) =~= placed(ls, section@, ad));
    out
}

fn edit(s: &str, section: &str, pick: &Pick, added: &Vec<Vec<char>>) -> (r: String)
    ensures
        r@ == edited(s@, section@, pick@, pieces::texts(added@)),
{
    let chars = chars_of(s);
    let lines = split(chars.as_slice(), '\n');
    let left = keep(&lines, section, pick);
    let out = place(&left, section, added);
    let all = join(&out, '\n');
    string_of(all.as_slice())
}

/// How far a line goes without the white space at its end.
fn end_of(chars: &[char], upto: usize) -> (k: usize)
    requires
        upto <= chars@.len(),
    ensures
        k <= upto,
        k == trimmed_end(chars@.take(upto as int)).len(),
{
    let ghost all = chars@.take(upto as int);
    let mut k: usize = upto;
    while k > 0 && text::white(chars[k - 1])
        invariant
            k <= upto <= chars@.len(),
            trimmed_end(chars@.take(k as int)) == trimmed_end(all),
        decreases k,
    {
        assert(chars@.take(k as int).drop_last() =~= chars@.take(k - 1));
        k -= 1;
    }
    k
}

/// Sets a key of a section where it is set, if it is.
fn retell(lines: &Vec<Vec<char>>, section: &str, key: &str, w: &[char]) -> (r: (
    bool,
    Vec<Vec<char>>,
))
    ensures
        r.0 == is_set(Seq::empty(), pieces::texts(lines@), section@, key@),
        pieces::texts(r.1@) == retold(Seq::empty(), pieces::texts(lines@), section@, key@, w@),
{
    let ghost ls = pieces::texts(lines@);
    let mut out: Vec<Vec<char>> = Vec::new();
    let mut found = false;
    let mut current = String::new();
    let mut i: usize = 0;
    assert(current@ =~= Seq::empty());
    assert(pieces::texts(out@) =~= ls.take(0));
    while i < lines.len()
        invariant
            i <= lines@.len(),
            ls == pieces::texts(lines@),
            current@ == config::section_after(Seq::empty(), ls.take(i as int)),
            found == is_set(Seq::empty(), ls.take(i as int), section@, key@),
            pieces::texts(out@) == retold(Seq::empty(), ls.take(i as int), section@, key@, w@),
        decreases lines@.len() - i,
    {
        proof {
            assert(ls.take(i + 1).drop_last() =~= ls.take(i as int));
            assert(ls.take(i + 1).last() == lines@[i as int]@);
        }
        let mut here = false;
        let mut next: Option<String> = None;
        match read_line(lines[i].as_slice()) {
            Statement::Header(name) => {
                next = Some(name);
            },
            Statement::Pair(k, _) => {
                here = same(current.as_str(), section) && same(k.as_str(), key);
            },
            Statement::Other => {},
        }
        let ghost before = pieces::texts(out@);
        let line = if here {
            found = true;
            let old_line = lines[i].as_slice();
            let cut: usize = comment_start(old_line);
            let end: usize = end_of(old_line, cut);
            let k = chars_of(key);
            let mut line = pair(k.as_slice(), w);
            let tail = slice_of(old_line, end, old_line.len());
            assert(tail@ =~= tail_of(old_line@));
            append(&mut line, tail.as_slice());
            line
        } else {
            copy(lines[i].as_slice())
        };
        out.push(line);
        assert(pieces::texts(out@) =~= before.push(line@));
        if let Some(name) = next {
            current = name;
        }
        i += 1;
    }
    assert(ls.take(ls.len() as int) =~= ls);
    (found, out)
}

/// Sets a key of a section to `w`.
fn set_value(s: &str, section: &str, key: &str, w: &[char]) -> (r: String)
    ensures
        r@ == with_value(s@, section@, key@, w@),
{
    let chars = chars_of(s);
    let lines = split(chars.as_slice(), '\n');
    let (found, out) = retell(&lines, section, key, w);
    if found {
        let all = join(&out, '\n');
        return string_of(all.as_slice());
    }
    let k = chars_of(key);
    let line = pair(k.as_slice(), w);
    let mut added: Vec<Vec<char>> = Vec::new();
    added.push(line);
    assert(pieces::texts(added@) =~= seq![line@]);
    let pick = Pick { all: false, keys: Vec::new(), values: Vec::new(), spared: Vec::new() };
    assert(pick@ =~= nothing());
    edit(s, section, &pick, &added)
}

fn drop_section(lines: &Vec<Vec<char>>, section: &str) -> (out: Vec<Vec<char>>)
    ensures
        pieces::texts(out@) == without_section(Seq::empty(), pieces::texts(lines@), section@),
{
    let ghost ls = pieces::texts(lines@);
    let mut out: Vec<Vec<char>> = Vec::new();
    let mut current = String::new();
    let mut i: usize = 0;
    assert(current@ =~= Seq::empty());
    assert(pieces::texts(out@) =~= ls.take(0));
    while i < lines.len()
        invariant
            i <= lines@.len(),
            ls == pieces::texts(lines@),
            current@ == config::section_after(Seq::empty(), ls.take(i as int)),
            pieces::texts(out@) == without_section(Seq::empty(), ls.take(i as int), section@),
        decreases lines@.len() - i,
    {
        proof {
            assert(ls.take(i + 1).drop_last() =~= ls.take(i as int));
            assert(ls.take(i + 1).last() == lines@[i as int]@);
        }
        let mut goes_out = false;
        let mut next: Option<String> = None;
        match read_line(lines[i].as_slice()) {
            Statement::Header(name) => {
                goes_out = same(name.as_str(), section);
                next = Some(name);
            },
            Statement::Pair(_, _) => {
                goes_out = same(current.as_str(), section);
            },
            Statement::Other => {},
        }
        if !goes_out {
            let ghost before = pieces::texts(out@);
            let line = copy(lines[i].as_slice());
            out.push(line);
            assert(pieces::texts(out@) =~= before.push(line@));
        } else {
            push_remains(&mut out, lines[i].as_slice());
        }
        if let Some(name) = next {
            current = name;
        }
        i += 1;
    }
    assert(ls.take(ls.len() as int) =~= ls);
    out
}

// ---- the sections that are rewritten ----------------------------------------------------

/// Every line of a section.
pub open spec fn every() -> Choice {
    Choice { all: true, keys: Seq::empty(), values: Seq::empty(), spared: Seq::empty() }
}

/// The lines of a list: its values under the keys 1, 2, 3 and so on.
pub open spec fn list_lines(values: Seq<Seq<char>>) -> Seq<Seq<char>> {
    Seq::new(values.len(), |i: int| pair_line(numbers::shown((i + 1) as nat), quoted(values[i])))
}

/// A text whose section is the list `values`.
pub open spec fn with_list(s: Seq<char>, section: Seq<char>, values: Seq<Seq<char>>) -> Seq<char> {
    edited(s, section, every(), list_lines(values))
}

/// A text in which `alias` stands for `target`, and no other alias does.
pub open spec fn with_alias(s: Seq<char>, alias: Seq<char>, target: Seq<char>) -> Seq<char> {
    edited(
        with_value(s, "aliases"@, alias, quoted(target)),
        "aliases"@,
        Choice { all: false, keys: Seq::empty(), values: seq![target], spared: seq![alias] },
        Seq::empty(),
    )
}

/// A text in which nothing is an alias for `target`.
pub open spec fn without_alias(s: Seq<char>, target: Seq<char>) -> Seq<char> {
    edited(
        s,
        "aliases"@,
        Choice { all: false, keys: Seq::empty(), values: seq![target], spared: Seq::empty() },
        Seq::empty(),
    )
}

/// The section of a quicklink.
pub open spec fn quicklink_section(slug: Seq<char>) -> Seq<char> {
    "quicklinks."@ + slug
}

/// A text whose quicklink section opens with a program, or with none.
pub open spec fn with_program(s: Seq<char>, section: Seq<char>, open_with: Seq<char>) -> Seq<char> {
    if open_with.len() == 0 {
        edited(
            s,
            section,
            Choice {
                all: false,
                keys: seq!["open_with"@],
                values: Seq::empty(),
                spared: Seq::empty(),
            },
            Seq::empty(),
        )
    } else {
        with_value(s, section, "open_with"@, quoted(open_with))
    }
}

/// A text with the quicklink `slug` as given. The program to open it with is
/// left out when there is none. New settings go in from the last, each on top.
pub open spec fn with_quicklink(
    s: Seq<char>,
    slug: Seq<char>,
    name: Seq<char>,
    link: Seq<char>,
    open_with: Seq<char>,
) -> Seq<char> {
    let section = quicklink_section(slug);
    with_value(
        with_value(with_program(s, section, open_with), section, "link"@, quoted(link)),
        section,
        "name"@,
        quoted(name),
    )
}

/// A flag as it is written.
pub open spec fn flag_word(on: bool) -> Seq<char> {
    if on {
        "true"@
    } else {
        "false"@
    }
}

/// A text with a flag of the `[general]` section set.
pub open spec fn with_flag(s: Seq<char>, key: Seq<char>, on: bool) -> Seq<char> {
    with_value(s, "general"@, key, flag_word(on))
}

/// Makes a section the list `values`.
pub fn set_list(s: &str, section: &str, values: &Vec<String>) -> (r: String)
    ensures
        r@ == with_list(s@, section@, pieces::strings(values@)),
{
    let ghost vs = pieces::strings(values@);
    let mut added: Vec<Vec<char>> = Vec::new();
    let mut i: usize = 0;
    assert(pieces::texts(added@) =~= list_lines(vs).take(0));
    while i < values.len()
        invariant
            i <= values@.len(),
            vs == pieces::strings(values@),
            pieces::texts(added@) == list_lines(vs).take(i as int),
        decreases values@.len() - i,
    {
        let key = numbers::show(i as u128 + 1);
        let value = quote(values[i].as_str());
        let line = pair(key.as_slice(), value.as_slice());
        let ghost before = pieces::texts(added@);
        proof {
            assert(vs[i as int] == values@[i as int]@);
            assert(list_lines(vs)[i as int] == line@);
            assert(list_lines(vs).take(i + 1) =~= list_lines(vs).take(i as int).push(line@));
        }
        added.push(line);
        assert(pieces::texts(added@) =~= before.push(line@));
        i += 1;
    }
    assert(list_lines(vs).take(vs.len() as int) =~= list_lines(vs));
    let pick = Pick { all: true, keys: Vec::new(), values: Vec::new(), spared: Vec::new() };
    assert(pick@ =~= every());
    edit(s, section, &pick, &added)
}

fn one(s: &str) -> (v: Vec<String>)
    ensures
        pieces::strings(v@) == seq![s@],
{
    let mut v: Vec<String> = Vec::new();
    v.push(s.to_owned());
    assert(pieces::strings(v@) =~= seq![s@]);
    v
}

/// Sets an alias.
pub fn upsert_alias(s: &str, alias: &str, target: &str) -> (r: String)
    ensures
        r@ == with_alias(s@, alias@, target@),
{
    let w = quote(target);
    let told = set_value(s, "aliases", alias, w.as_slice());
    let added: Vec<Vec<char>> = Vec::new();
    assert(pieces::texts(added@) =~= Seq::empty());
    let pick = Pick { all: false, keys: Vec::new(), values: one(target), spared: one(alias) };
    assert(pick@.keys =~= Seq::empty());
    edit(told.as_str(), "aliases", &pick, &added)
}

/// Takes back the alias of something.
pub fn remove_alias(s: &str, target: &str) -> (r: String)
    ensures
        r@ == without_alias(s@, target@),
{
    let added: Vec<Vec<char>> = Vec::new();
    assert(pieces::texts(added@) =~= Seq::empty());
    let pick = Pick { all: false, keys: Vec::new(), values: one(target), spared: Vec::new() };
    assert(pick@.keys =~= Seq::empty());
    assert(pick@.spared =~= Seq::empty());
    edit(s, "aliases", &pick, &added)
}

/// Sets the program that a quicklink opens with.
fn set_program(s: &str, section: &str, open_with: &str) -> (r: String)
    ensures
        r@ == with_program(s@, section@, open_with@),
{
    let program = chars_of(open_with);
    if program.len() > 0 {
        let w = quote(open_with);
        return set_value(s, section, "open_with", w.as_slice());
    }
    let added: Vec<Vec<char>> = Vec::new();
    assert(pieces::texts(added@) =~= Seq::empty());
    let pick = Pick {
        all: false,
        keys: one("open_with"),
        values: Vec::new(),
        spared: Vec::new(),
    };
    assert(pick@.values =~= Seq::empty());
    assert(pick@.spared =~= Seq::empty());
    edit(s, section, &pick, &added)
}

/// Writes a quicklink.
pub fn upsert_quicklink(s: &str, slug: &str, name: &str, link: &str, open_with: &str) -> (r: String)
    ensures
        r@ == with_quicklink(s@, slug@, name@, link@, open_with@),
{
    let section = pieces::concat("quicklinks.", slug);
    let s = set_program(s, section.as_str(), open_with);
    let w = quote(link);
    let s = set_value(s.as_str(), section.as_str(), "link", w.as_slice());
    let w = quote(name);
    set_value(s.as_str(), section.as_str(), "name", w.as_slice())
}

/// Takes out a quicklink.
pub fn remove_quicklink(s: &str, slug: &str) -> (r: String)
    ensures
        r@ == removed(s@, quicklink_section(slug@)),
{
    let section = pieces::concat("quicklinks.", slug);
    let chars = chars_of(s);
    let lines = split(chars.as_slice(), '\n');
    let left = drop_section(&lines, section.as_str());
    let all = join(&left, '\n');
    string_of(all.as_slice())
}

/// Sets a flag of the `[general]` section.
pub fn set_general_flag(s: &str, key: &str, on: bool) -> (r: String)
    ensures
        r@ == with_flag(s@, key@, on),
{
    let word = if on {
        "true"
    } else {
        "false"
    };
    let w = chars_of(word);
    set_value(s, "general", key, w.as_slice())
}

// ---- changes as values ------------------------------------------------------------------

/// A change to the configuration file.
pub enum Change {
    SetAlias { alias: String, target: String },
    RemoveAlias { target: String },
    SaveQuicklink { slug: String, name: String, link: String, open_with: String },
    RemoveQuicklink { slug: String },
    SetList { section: String, values: Vec<String> },
}

/// What a change is.
#[verifier::ext_equal]
pub enum Rewriting {
    SetAlias { alias: Seq<char>, target: Seq<char> },
    RemoveAlias { target: Seq<char> },
    SaveQuicklink { slug: Seq<char>, name: Seq<char>, link: Seq<char>, open_with: Seq<char> },
    RemoveQuicklink { slug: Seq<char> },
    SetList { section: Seq<char>, values: Seq<Seq<char>> },
}

impl Rewriting {
    /// The text after the change.
    pub open spec fn on(self, s: Seq<char>) -> Seq<char> {
        match self {
            Rewriting::SetAlias { alias, target } => with_alias(s, alias, target),
            Rewriting::RemoveAlias { target } => without_alias(s, target),
            Rewriting::SaveQuicklink { slug, name, link, open_with } => with_quicklink(
                s,
                slug,
                name,
                link,
                open_with,
            ),
            Rewriting::RemoveQuicklink { slug } => removed(s, quicklink_section(slug)),
            Rewriting::SetList { section, values } => with_list(s, section, values),
        }
    }
}

impl View for Change {
    type V = Rewriting;

    open spec fn view(&self) -> Rewriting {
        match self {
            Change::SetAlias { alias, target } => Rewriting::SetAlias {
                alias: alias@,
                target: target@,
            },
            Change::RemoveAlias { target } => Rewriting::RemoveAlias { target: target@ },
            Change::SaveQuicklink { slug, name, link, open_with } => Rewriting::SaveQuicklink {
                slug: slug@,
                name: name@,
                link: link@,
                open_with: open_with@,
            },
            Change::RemoveQuicklink { slug } => Rewriting::RemoveQuicklink { slug: slug@ },
            Change::SetList { section, values } => Rewriting::SetList {
                section: section@,
                values: pieces::strings(values@),
            },
        }
    }
}

impl Change {
    /// The text of the file after the change.
    pub fn apply(&self, s: &str) -> (r: String)
        ensures
            r@ == self@.on(s@),
    {
        match self {
            Change::SetAlias { alias, target } => upsert_alias(s, alias.as_str(), target.as_str()),
            Change::RemoveAlias { target } => remove_alias(s, target.as_str()),
            Change::SaveQuicklink { slug, name, link, open_with } => upsert_quicklink(
                s,
                slug.as_str(),
                name.as_str(),
                link.as_str(),
                open_with.as_str(),
            ),
            Change::RemoveQuicklink { slug } => remove_quicklink(s, slug.as_str()),
            Change::SetList { section, values } => set_list(s, section.as_str(), values),
        }
    }
}

// ---- changes that depend on what is there ---------------------------------------------------

/// Some text of the list is `path`, ASCII case aside.
pub open spec fn lists_path(values: Seq<Seq<char>>, path: Seq<char>) -> bool {
    exists|i: int|
        0 <= i < values.len() && text::same_ignoring_case(#[trigger] values[i], path)
}

/// A text whose sources have a folder more; `None` when it is one already.
pub open spec fn with_source(s: Seq<char>, path: Seq<char>) -> Option<Seq<char>> {
    let sources = config::values_in(config::settings_of(s), "sources"@);
    if lists_path(sources, path) {
        None
    } else {
        Some(with_list(s, "sources"@, sources.push(path)))
    }
}

/// Adds a folder to the sources, unless it is one already.
pub fn add_source(s: &str, path: &str) -> (r: Option<String>)
    ensures
        match r {
            Some(t) => with_source(s@, path@) == Some(t@),
            None => with_source(s@, path@) is None,
        },
{
    let config = Config::from_text(s);
    let mut sources = config.list_values("sources");
    let ghost vs = pieces::strings(sources@);
    let mut i: usize = 0;
    while i < sources.len()
        invariant
            i <= sources@.len(),
            vs == pieces::strings(sources@),
            vs == config::values_in(config::settings_of(s@), "sources"@),
            forall|j: int|
                0 <= j < i ==> !text::same_ignoring_case(#[trigger] vs[j], path@),
        decreases sources@.len() - i,
    {
        assert(vs[i as int] == sources@[i as int]@);
        if eq_ignore_ascii_case(sources[i].as_str(), path) {
            return None;
        }
        i += 1;
    }
    sources.push(path.to_owned());
    assert(pieces::strings(sources@) =~= vs.push(path@));
    Some(set_list(s, "sources", &sources))
}

/// A text in which the launcher starts at login exactly if it did not.
pub open spec fn with_startup_toggled(s: Seq<char>) -> Seq<char> {
    let on = config::flag_of(config::settings_of(s), "general"@, "start_on_startup"@, true);
    with_flag(s, "start_on_startup"@, !on)
}

/// Flips whether the launcher starts at login.
pub fn toggle_startup(s: &str) -> (r: String)
    ensures
        r@ == with_startup_toggled(s@),
{
    let on = Config::from_text(s).general_flag("start_on_startup", true);
    set_general_flag(s, "start_on_startup", !on)
}

} // verus!
