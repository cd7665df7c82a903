//! What changing the configuration file keeps, and what reads back from it.
use vstd::prelude::*;
use vstd::string::*;
use vstd::utf8::*;

use crate::config::{self, Line, Setting};
use crate::numbers;
use crate::pieces;
use crate::rewrite::{self, Choice};
use crate::text;

verus! {

// ---- lines one after the other ------------------------------------------------------

proof fn lemma_section_concat(start: Seq<char>, a: Seq<Seq<char>>, b: Seq<Seq<char>>)
    ensures
        config::section_after(start, a + b) == config::section_after(
            config::section_after(start, a),
            b,
        ),
    decreases b.len(),
{
    if b.len() == 0 {
        assert(a + b =~= a);
    } else {
        lemma_section_concat(start, a, b.drop_last());
        assert((a + b).drop_last() =~= a + b.drop_last());
    }
}

pub proof fn lemma_pairs_concat(start: Seq<char>, a: Seq<Seq<char>>, b: Seq<Seq<char>>)
    ensures
        config::pairs_of(start, a + b) == config::pairs_of(start, a) + config::pairs_of(
            config::section_after(start, a),
            b,
        ),
    decreases b.len(),
{
    if b.len() == 0 {
        assert(a + b =~= a);
        assert(config::pairs_of(start, a + b) =~= config::pairs_of(start, a) + config::pairs_of(
            config::section_after(start, a),
            b,
        ));
    } else {
        lemma_pairs_concat(start, a, b.drop_last());
        lemma_section_concat(start, a, b.drop_last());
        assert((a + b).drop_last() =~= a + b.drop_last());
        assert(config::pairs_of(start, a + b) =~= config::pairs_of(start, a) + config::pairs_of(
            config::section_after(start, a),
            b,
        ));
    }
}

/// The settings of one section, in order.
pub open spec fn of_section(pairs: Seq<Setting>, section: Seq<char>) -> Seq<Setting>
    decreases pairs.len(),
{
    if pairs.len() == 0 {
        pairs
    } else {
        let rest = of_section(pairs.drop_first(), section);
        if pairs[0].section == section {
            seq![pairs[0]] + rest
        } else {
            rest
        }
    }
}

proof fn lemma_of_section_concat(a: Seq<Setting>, b: Seq<Setting>, section: Seq<char>)
    ensures
        of_section(a + b, section) == of_section(a, section) + of_section(b, section),
    decreases a.len(),
{
    if a.len() == 0 {
        assert(a + b =~= b);
        assert(of_section(a + b, section) =~= of_section(a, section) + of_section(b, section));
    } else {
        lemma_of_section_concat(a.drop_first(), b, section);
        assert((a + b).drop_first() =~= a.drop_first() + b);
        assert(of_section(a + b, section) =~= of_section(a, section) + of_section(b, section));
    }
}

/// The settings that are not picked.
pub open spec fn unpicked(pairs: Seq<Setting>, section: Seq<char>, c: Choice) -> Seq<Setting>
    decreases pairs.len(),
{
    if pairs.len() == 0 {
        pairs
    } else {
        let rest = unpicked(pairs.drop_first(), section, c);
        if pairs[0].section == section && c.picks(pairs[0].key, pairs[0].value) {
            rest
        } else {
            seq![pairs[0]] + rest
        }
    }
}

proof fn lemma_unpicked_push(pairs: Seq<Setting>, x: Setting, section: Seq<char>, c: Choice)
    ensures
        unpicked(pairs.push(x), section, c) == if x.section == section && c.picks(x.key, x.value) {
            unpicked(pairs, section, c)
        } else {
            unpicked(pairs, section, c).push(x)
        },
    decreases pairs.len(),
{
    reveal_with_fuel(unpicked, 2);
    if pairs.len() == 0 {
        assert(pairs.push(x).drop_first() =~= pairs);
        assert(seq![x] + pairs =~= pairs.push(x));
    } else {
        lemma_unpicked_push(pairs.drop_first(), x, section, c);
        assert(pairs.push(x).drop_first() =~= pairs.drop_first().push(x));
        assert(pairs.push(x)[0] == pairs[0]);
        let rest = unpicked(pairs.drop_first(), section, c);
        assert((seq![pairs[0]] + rest).push(x) =~= seq![pairs[0]] + rest.push(x));
    }
}

/// What is left of another section is all of it.
proof fn lemma_unpicked_elsewhere(
    pairs: Seq<Setting>,
    section: Seq<char>,
    c: Choice,
    other: Seq<char>,
)
    requires
        other != section,
    ensures
        of_section(unpicked(pairs, section, c), other) == of_section(pairs, other),
    decreases pairs.len(),
{
    if pairs.len() > 0 {
        lemma_unpicked_elsewhere(pairs.drop_first(), section, c, other);
        let rest = unpicked(pairs.drop_first(), section, c);
        assert((seq![pairs[0]] + rest).drop_first() =~= rest);
        assert((seq![pairs[0]] + rest)[0] == pairs[0]);
    }
}

/// What is left of the section itself is picked by nothing.
proof fn lemma_unpicked_here(pairs: Seq<Setting>, section: Seq<char>, c: Choice)
    ensures
        forall|i: int|
            0 <= i < of_section(unpicked(pairs, section, c), section).len() ==> {
                let x = #[trigger] of_section(unpicked(pairs, section, c), section)[i];
                x.section == section && !c.picks(x.key, x.value)
            },
    decreases pairs.len(),
{
    if pairs.len() > 0 {
        lemma_unpicked_here(pairs.drop_first(), section, c);
        let rest = unpicked(pairs.drop_first(), section, c);
        assert((seq![pairs[0]] + rest).drop_first() =~= rest);
        assert((seq![pairs[0]] + rest)[0] == pairs[0]);
        let before = of_section(rest, section);
        let now = of_section(unpicked(pairs, section, c), section);
        assert forall|i: int| 0 <= i < now.len() implies ({
            let x = #[trigger] now[i];
            x.section == section && !c.picks(x.key, x.value)
        }) by {
            if now.len() == before.len() {
                assert(now == before);
                assert(before[i] == now[i]);
            } else if i > 0 {
                assert(now[i] == before[i - 1]);
            }
        }
    }
}

/// What there is but the settings of the section: other sections, headings,
/// blank lines, and every comment, also one behind a setting.
pub open spec fn around(start: Seq<char>, lines: Seq<Seq<char>>, section: Seq<char>) -> Seq<
    Seq<char>,
>
    decreases lines.len(),
{
    if lines.len() == 0 {
        lines
    } else {
        let before = around(start, lines.drop_last(), section);
        if config::section_after(start, lines.drop_last()) == section && config::line_of(
            lines.last(),
        ) is Pair {
            before + rewrite::remains(lines.last())
        } else {
            before.push(lines.last())
        }
    }
}

/// Every comment of the lines, in order.
pub open spec fn comments_of(lines: Seq<Seq<char>>) -> Seq<Seq<char>>
    decreases lines.len(),
{
    if lines.len() == 0 {
        lines
    } else {
        comments_of(lines.drop_last()) + rewrite::remains(lines.last())
    }
}

/// Every comment of a text, in order.
pub open spec fn comments_in(s: Seq<char>) -> Seq<Seq<char>> {
    comments_of(pieces::split_on(s, '\n'))
}

proof fn lemma_comments_concat(a: Seq<Seq<char>>, b: Seq<Seq<char>>)
    ensures
        comments_of(a + b) == comments_of(a) + comments_of(b),
    decreases b.len(),
{
    if b.len() == 0 {
        assert(a + b =~= a);
        assert(comments_of(a) + comments_of(b) =~= comments_of(a));
    } else {
        lemma_comments_concat(a, b.drop_last());
        assert((a + b).drop_last() =~= a + b.drop_last());
        assert(comments_of(a + b) =~= comments_of(a) + comments_of(b));
    }
}

/// What is left of a line that was taken out is its comment, and says nothing.
proof fn lemma_remains(start: Seq<char>, line: Seq<char>, section: Seq<char>)
    ensures
        ({
            let r = rewrite::remains(line);
            &&& r.len() <= 1
            &&& config::section_after(start, r) == start
            &&& config::pairs_of(start, r).len() == 0
            &&& around(start, r, section) == r
            &&& comments_of(r) == r
            &&& r.len() == 1 ==> config::line_of(r[0]) == Line::Other
            &&& !line.contains('\n') && r.len() == 1 ==> !r[0].contains('\n')
        }),
{
    let r = rewrite::remains(line);
    config::lemma_comment_in(line);
    if r.len() == 1 {
        let c = r[0];
        let e = Seq::<Seq<char>>::empty();
        assert(r.drop_last() =~= e);
        assert(config::line_of(c) == Line::Other);
        reveal_with_fuel(config::section_after, 2);
        reveal_with_fuel(config::pairs_of, 2);
        reveal_with_fuel(around, 2);
        reveal_with_fuel(comments_of, 2);
        assert(e.push(c) =~= r);
        assert(around(start, r, section) =~= r);
        assert(rewrite::remains(c) =~= r);
        assert(comments_of(r) =~= r);
        if c.contains('\n') {
            let k = choose|k: int| 0 <= k < c.len() && c[k] == '\n';
            assert(line[config::cut_at(line) + k] == '\n');
        }
    } else {
        assert(r =~= Seq::empty());
    }
}

proof fn lemma_around_concat(
    start: Seq<char>,
    a: Seq<Seq<char>>,
    b: Seq<Seq<char>>,
    section: Seq<char>,
)
    ensures
        around(start, a + b, section) == around(start, a, section) + around(
            config::section_after(start, a),
            b,
            section,
        ),
    decreases b.len(),
{
    if b.len() == 0 {
        assert(a + b =~= a);
        assert(around(start, a + b, section) =~= around(start, a, section) + around(
            config::section_after(start, a),
            b,
            section,
        ));
    } else {
        lemma_around_concat(start, a, b.drop_last(), section);
        lemma_section_concat(start, a, b.drop_last());
        assert((a + b).drop_last() =~= a + b.drop_last());
        assert(around(start, a + b, section) =~= around(start, a, section) + around(
            config::section_after(start, a),
            b,
            section,
        ));
    }
}

/// Taking lines out takes out settings of the section, and nothing else.
proof fn lemma_kept(start: Seq<char>, lines: Seq<Seq<char>>, section: Seq<char>, c: Choice)
    ensures
        ({
            let k = rewrite::kept(start, lines, section, c);
            &&& config::section_after(start, k) == config::section_after(start, lines)
            &&& config::pairs_of(start, k) == unpicked(config::pairs_of(start, lines), section, c)
            &&& around(start, k, section) == around(start, lines, section)
            &&& comments_of(k) == comments_of(lines)
        }),
    decreases lines.len(),
{
    if lines.len() > 0 {
        let t = lines.drop_last();
        lemma_kept(start, t, section, c);
        let k = rewrite::kept(start, t, section, c);
        let line = lines.last();
        let now = config::section_after(start, k);
        assert(k.push(line).drop_last() =~= k);
        if rewrite::goes(line, now, section, c) {
            let left = rewrite::remains(line);
            lemma_remains(now, line, section);
            lemma_section_concat(start, k, left);
            lemma_pairs_concat(start, k, left);
            lemma_around_concat(start, k, left, section);
            lemma_comments_concat(k, left);
            assert(config::pairs_of(start, k + left) =~= config::pairs_of(start, k));
        }
        if let Line::Pair(key, value) = config::line_of(line) {
            let x = Setting { section: config::section_after(start, t), key, value };
            lemma_unpicked_push(config::pairs_of(start, t), x, section, c);
        }
    }
}

proof fn lemma_kept_from(
    start: Seq<char>,
    lines: Seq<Seq<char>>,
    section: Seq<char>,
    c: Choice,
)
    requires
        forall|i: int| 0 <= i < lines.len() ==> !(#[trigger] lines[i]).contains('\n'),
    ensures
        forall|i: int|
            0 <= i < rewrite::kept(start, lines, section, c).len() ==> !(#[trigger] rewrite::kept(
                start,
                lines,
                section,
                c,
            )[i]).contains('\n'),
    decreases lines.len(),
{
    if lines.len() > 0 {
        let t = lines.drop_last();
        assert forall|i: int| 0 <= i < t.len() implies !(#[trigger] t[i]).contains('\n') by {
            assert(t[i] == lines[i]);
        }
        lemma_kept_from(start, t, section, c);
        let k = rewrite::kept(start, t, section, c);
        let r = rewrite::kept(start, lines, section, c);
        assert forall|i: int| 0 <= i < r.len() implies !(#[trigger] r[i]).contains('\n') by {
            lemma_remains(start, lines[lines.len() - 1], section);
            if i < k.len() {
                assert(r[i] == k[i]);
            } else if r.len() == k.len() + 1 && r[i] == lines[lines.len() - 1] {
            } else {
                assert(r[i] == rewrite::remains(lines[lines.len() - 1])[i - k.len()]);
            }
        }
    }
}

proof fn lemma_no_heading_no_settings(
    start: Seq<char>,
    lines: Seq<Seq<char>>,
    section: Seq<char>,
)
    requires
        start != section,
        forall|i: int|
            0 <= i < lines.len() ==> config::line_of(#[trigger] lines[i]) != Line::Header(section),
    ensures
        config::section_after(start, lines) != section,
        of_section(config::pairs_of(start, lines), section).len() == 0,
        around(start, lines, section) == lines,
    decreases lines.len(),
{
    if lines.len() > 0 {
        let t = lines.drop_last();
        assert forall|i: int| 0 <= i < t.len() implies config::line_of(#[trigger] t[i])
            != Line::Header(section) by {
            assert(t[i] == lines[i]);
        }
        lemma_no_heading_no_settings(start, t, section);
        assert(config::line_of(lines[lines.len() - 1]) != Line::Header(section));
        let p = config::pairs_of(start, t);
        if let Line::Pair(key, value) = config::line_of(lines.last()) {
            let x = Setting { section: config::section_after(start, t), key, value };
            assert(p.push(x) =~= p + seq![x]);
            lemma_of_section_concat(p, seq![x], section);
            reveal_with_fuel(of_section, 2);
        }
        assert(t.push(lines.last()) =~= lines);
    }
}

/// Lines that are all `key = value`, none with a newline or a comment in it.
pub open spec fn only_pairs(added: Seq<Seq<char>>) -> bool {
    forall|i: int| 0 <= i < added.len() ==> is_plain_pair(#[trigger] added[i])
}

/// A line `key = value` without a comment.
pub open spec fn is_plain_pair(line: Seq<char>) -> bool {
    config::line_of(line) is Pair && !line.contains('\n') && config::comment_in(line).len() == 0
}

proof fn lemma_only_pairs(section: Seq<char>, added: Seq<Seq<char>>)
    requires
        only_pairs(added),
    ensures
        config::section_after(section, added) == section,
        around(section, added, section).len() == 0,
        comments_of(added).len() == 0,
        config::pairs_of(section, added).len() == added.len(),
        of_section(config::pairs_of(section, added), section) == config::pairs_of(section, added),
        forall|i: int|
            0 <= i < added.len() ==> Line::Pair(
                (#[trigger] config::pairs_of(section, added)[i]).key,
                config::pairs_of(section, added)[i].value,
            ) == config::line_of(added[i]) && config::pairs_of(section, added)[i].section
                == section,
    decreases added.len(),
{
    if added.len() > 0 {
        let t = added.drop_last();
        assert forall|i: int| 0 <= i < t.len() implies is_plain_pair(#[trigger] t[i]) by {
            assert(t[i] == added[i]);
        }
        lemma_only_pairs(section, t);
        assert(is_plain_pair(added[added.len() - 1]));
        let p = config::pairs_of(section, t);
        let q = config::pairs_of(section, added);
        let x = q.last();
        assert(q =~= p + seq![x]);
        lemma_of_section_concat(p, seq![x], section);
        reveal_with_fuel(of_section, 2);
        assert(of_section(seq![x], section) =~= seq![x]);
        assert forall|i: int| 0 <= i < added.len() implies Line::Pair(
            (#[trigger] q[i]).key,
            q[i].value,
        ) == config::line_of(added[i]) && q[i].section == section by {
            if i < t.len() {
                assert(q[i] == p[i]);
                assert(t[i] == added[i]);
            }
        }
    }
}

// ---- headings and values ----------------------------------------------------------------

/// A character that means nothing to the reader of a line.
pub open spec fn plain_char(c: char) -> bool {
    c != '#' && c != '"' && c != '\''
}

proof fn lemma_scan_plain(s: Seq<char>, i: int, j: int, literal: int)
    requires
        0 <= i <= j <= s.len(),
        forall|k: int| i <= k < j ==> plain_char(#[trigger] s[k]),
        literal < i || j <= literal,
    ensures
        config::comment_at(s, i, None, literal) == config::comment_at(s, j, None, literal),
    decreases j - i,
{
    if i < j {
        assert(plain_char(s[i]));
        lemma_scan_plain(s, i + 1, j, literal);
    }
}

proof fn lemma_scan_quoted(s: Seq<char>, i: int, j: int, q: char, literal: int)
    requires
        0 <= i <= j <= s.len(),
        forall|k: int| i <= k < j ==> #[trigger] s[k] != q,
    ensures
        config::comment_at(s, i, Some(q), literal) == config::comment_at(s, j, Some(q), literal),
    decreases j - i,
{
    if i < j {
        assert(s[i] != q);
        lemma_scan_quoted(s, i + 1, j, q, literal);
    }
}

/// Where no string between single quotes stands ahead makes no difference.
proof fn lemma_scan_literal(s: Seq<char>, i: int, open: Option<char>, l: int, m: int)
    requires
        0 <= i <= s.len(),
        l < i || s.len() <= l,
        m < i || s.len() <= m,
    ensures
        config::comment_at(s, i, open, l) == config::comment_at(s, i, open, m),
    decreases s.len() - i,
{
    if i < s.len() {
        lemma_scan_literal(s, i + 1, None, l, m);
        lemma_scan_literal(s, i + 1, open, l, m);
        lemma_scan_literal(s, i + 1, Some(s[i]), l, m);
    }
}

/// What ends with every quote closed is passed over, whatever follows it.
proof fn lemma_scan_prefix(w: Seq<char>, t: Seq<char>, i: int, open: Option<char>, literal: int)
    requires
        0 <= i <= w.len(),
        open != Some('#'),
        config::comment_at(w.push('#'), i, open, literal) == w.len(),
    ensures
        config::comment_at(w + t, i, open, literal) == config::comment_at(
            w + t,
            w.len() as int,
            None,
            literal,
        ),
    decreases w.len() - i,
{
    if i < w.len() {
        assert(w.push('#')[i] == w[i]);
        assert((w + t)[i] == w[i]);
        let next = match open {
            Some(q) => if w[i] == q {
                None
            } else {
                open
            },
            None => if w[i] == '"' || i == literal {
                Some(w[i])
            } else {
                None
            },
        };
        lemma_scan_prefix(w, t, i + 1, next, literal);
    } else {
        reveal_with_fuel(config::comment_at, 3);
        assert(w.push('#')[i] == '#');
    }
}

proof fn lemma_trimmed_whole(s: Seq<char>)
    requires
        s.len() > 0 ==> !text::is_white(s[0]) && !text::is_white(s.last()),
    ensures
        text::trimmed(s) == s,
{
}

proof fn lemma_bare_key(key: Seq<char>)
    requires
        rewrite::bare_key(key),
    ensures
        text::trimmed(key) == key,
        text::lowered(key) == key,
        !key.contains('\n'),
        !key.contains('='),
        forall|i: int| 0 <= i < key.len() ==> plain_char(#[trigger] key[i]),
{
    if key.len() > 0 {
        assert(rewrite::key_char(key[0]));
        assert(rewrite::key_char(key[key.len() - 1]));
    }
    lemma_trimmed_whole(key);
    assert(is_ascii_chars(key)) by {
        assert forall|i: int| 0 <= i < key.len() implies (#[trigger] key[i] as u32) < 128 by {
            assert(rewrite::key_char(key[i]));
        }
    }
    assert(key.map_values(|c: char| text::ascii_lower(c)) =~= key) by {
        assert forall|i: int| 0 <= i < key.len() implies text::ascii_lower(#[trigger] key[i])
            == key[i] by {
            assert(rewrite::key_char(key[i]));
        }
    }
    assert forall|i: int| 0 <= i < key.len() implies plain_char(#[trigger] key[i]) by {
        assert(rewrite::key_char(key[i]));
    }
    if key.contains('\n') {
        let k = choose|k: int| 0 <= k < key.len() && key[k] == '\n';
        assert(rewrite::key_char(key[k]));
    }
    if key.contains('=') {
        let k = choose|k: int| 0 <= k < key.len() && key[k] == '=';
        assert(rewrite::key_char(key[k]));
    }
}

/// A heading reads as a heading.
proof fn lemma_heading(section: Seq<char>)
    requires
        rewrite::bare_key(section),
    ensures
        config::line_of(rewrite::heading(section)) == Line::Header(section),
        !rewrite::heading(section).contains('\n'),
        rewrite::remains(rewrite::heading(section)).len() == 0,
{
    let h = rewrite::heading(section);
    lemma_bare_key(section);
    assert forall|k: int| 0 <= k < h.len() implies plain_char(#[trigger] h[k]) && h[k] != '\n' by {
        if 0 < k < h.len() - 1 {
            assert(h[k] == section[k - 1]);
            assert(plain_char(section[k - 1]));
            assert(section.contains(section[k - 1]));
        }
    }
    if config::opens_literal(h, config::value_at(h)) {
        assert(plain_char(h[config::value_at(h)]));
    }
    lemma_scan_plain(h, 0, h.len() as int, h.len() as int);
    assert(config::uncommented(h) =~= h);
    lemma_trimmed_whole(h);
    assert(h.subrange(1, h.len() - 1) =~= section);
}

/// Where a value is a string between single quotes: at its start, or not at
/// all.
pub open spec fn literal_in(w: Seq<char>) -> int {
    if config::opens_literal(w, 0) {
        0
    } else {
        -1
    }
}

/// Something that can stand for a value: no white space around it, no comment
/// in it, no quote left open, no newline.
pub open spec fn token(w: Seq<char>) -> bool {
    &&& w.len() > 0
    &&& !text::is_white(w[0])
    &&& !text::is_white(w.last())
    &&& w[0] == '\'' ==> config::opens_literal(w, 0)
    &&& config::comment_at(w.push('#'), 0, None, literal_in(w)) == w.len()
    &&& !w.contains('\n')
}

proof fn lemma_scan_shift(
    a: Seq<char>,
    w: Seq<char>,
    i: int,
    open: Option<char>,
    literal: int,
)
    requires
        0 <= i <= w.len(),
    ensures
        config::comment_at(a + w, a.len() + i, open, a.len() + literal) == a.len()
            + config::comment_at(w, i, open, literal),
    decreases w.len() - i,
{
    if i < w.len() {
        assert((a + w)[a.len() + i] == w[i]);
        lemma_scan_shift(a, w, i + 1, None, literal);
        lemma_scan_shift(a, w, i + 1, open, literal);
        lemma_scan_shift(a, w, i + 1, Some(w[i]), literal);
    }
}

/// `t` can follow a statement: `g` white characters, and a comment or nothing.
pub open spec fn trails(t: Seq<char>, g: int) -> bool {
    &&& 0 <= g <= t.len()
    &&& forall|k: int| 0 <= k < g ==> text::is_white(#[trigger] t[k])
    &&& g < t.len() ==> t[g] == '#'
}

proof fn lemma_trimmed_gap(s: Seq<char>, n: int)
    requires
        0 < n <= s.len(),
        !text::is_white(s[0]),
        !text::is_white(s[n - 1]),
        forall|k: int| n <= k < s.len() ==> text::is_white(#[trigger] s[k]),
    ensures
        text::trimmed(s) == s.take(n),
    decreases s.len(),
{
    if n == s.len() {
        lemma_trimmed_whole(s);
        assert(s.take(n) =~= s);
    } else {
        let t = s.drop_last();
        assert(text::is_white(s[s.len() - 1]));
        assert forall|k: int| n <= k < t.len() implies text::is_white(#[trigger] t[k]) by {
            assert(t[k] == s[k]);
        }
        lemma_trimmed_gap(t, n);
        assert(t.take(n) =~= s.take(n));
    }
}

/// `key = value` is cut where its comment starts.
proof fn lemma_pair_cut(key: Seq<char>, w: Seq<char>, t: Seq<char>, g: int)
    requires
        rewrite::bare_key(key),
        key.len() > 0,
        token(w),
        trails(t, g),
    ensures
        config::cut_at(rewrite::pair_line(key, w) + t) == rewrite::pair_line(key, w).len() + g,
        pieces::first_of(rewrite::pair_line(key, w) + t, '=') == key.len() + 1,
{
    let a = key + seq![' ', '=', ' '];
    let n = key.len() as int;
    let b = w + t;
    let line = rewrite::pair_line(key, w) + t;
    lemma_bare_key(key);
    assert(line =~= a + b);
    assert forall|k: int| 0 <= k < n + 3 implies plain_char(#[trigger] line[k]) by {
        assert(line[k] == a[k]);
        if k < n {
            assert(a[k] == key[k]);
            assert(plain_char(key[k]));
        }
    }
    assert(line[n + 1] == '=');
    assert forall|i: int| 0 <= i < n + 1 implies #[trigger] line[i] != '=' by {
        if i < n {
            assert(line[i] == key[i]);
            assert(key.contains(key[i]));
        }
    }
    pieces::lemma_first_of_is(line, '=', n + 1);
    assert(config::value_at(line) == n + 3) by {
        reveal_with_fuel(config::past_white, 2);
        assert(line[n + 2] == ' ');
        assert(line[n + 3] == w[0]);
    }
    let at = literal_in(w);
    if w[0] == '\'' {
        let rest = w.skip(1);
        let k = choose|k: int| 0 <= k < rest.len() && rest[k] == '\'';
        assert(line.skip(n + 4)[k] == '\'');
        assert(config::literal_at(line) == a.len() + at);
    } else {
        assert(config::literal_at(line) == line.len());
    }
    lemma_scan_plain(line, 0, n + 3, config::literal_at(line));
    if w[0] != '\'' {
        lemma_scan_literal(line, n + 3, None, line.len() as int, a.len() + at);
    }
    lemma_scan_shift(a, b, 0, None, at);
    lemma_scan_prefix(w, t, 0, None, at);
    let m = w.len() as int;
    assert forall|k: int| m <= k < m + g implies plain_char(#[trigger] b[k]) by {
        assert(b[k] == t[k - m]);
        assert(text::is_white(t[k - m]));
    }
    lemma_scan_plain(b, m, m + g, at);
    if g < t.len() {
        assert(b[m + g] == '#');
    }
}

/// What `key = value` says.
proof fn lemma_pair_statement(key: Seq<char>, w: Seq<char>)
    requires
        rewrite::bare_key(key),
        key.len() > 0,
        token(w),
    ensures
        config::statement(rewrite::pair_line(key, w)) == Line::Pair(key, config::unquoted(w)),
{
    let body = rewrite::pair_line(key, w);
    let n = key.len() as int;
    lemma_bare_key(key);
    assert(rewrite::key_char(key[0]));
    assert(body[0] == key[0]);
    assert forall|i: int| 0 <= i < n + 1 implies #[trigger] body[i] != '=' by {
        if i < n {
            assert(body[i] == key[i]);
            assert(key.contains(key[i]));
        }
    }
    assert(body[n + 1] == '=');
    pieces::lemma_first_of_is(body, '=', n + 1);
    let left = body.take(n + 1);
    assert(left =~= key.push(' '));
    assert(left.drop_last() =~= key);
    assert(text::trimmed(left) == key) by {
        assert(left[0] == key[0]);
        assert(text::is_white(left.last()));
    }
    let right = body.skip(n + 2);
    assert(right =~= seq![' '] + w);
    assert(right.drop_first() =~= w);
    lemma_trimmed_whole(w);
    assert(text::trimmed(right) == w);
}

/// A line put in reads as what was meant, whatever follows its statement.
proof fn lemma_told_line(key: Seq<char>, w: Seq<char>, t: Seq<char>, g: int)
    requires
        rewrite::bare_key(key),
        key.len() > 0,
        token(w),
        trails(t, g),
        !t.contains('\n'),
    ensures
        ({
            let line = rewrite::pair_line(key, w) + t;
            &&& config::line_of(line) == Line::Pair(key, config::unquoted(w))
            &&& config::comment_in(line) == t.skip(g)
            &&& !line.contains('\n')
        }),
{
    let body = rewrite::pair_line(key, w);
    let line = body + t;
    let n = key.len() as int;
    let m = body.len() as int;
    lemma_pair_cut(key, w, t, g);
    lemma_pair_statement(key, w);
    assert(text::trimmed(config::uncommented(line)) == body) by {
        let u = config::uncommented(line);
        assert(rewrite::key_char(key[0]));
        assert(u[0] == key[0]);
        assert(u[m - 1] == w.last());
        assert forall|k: int| m <= k < u.len() implies text::is_white(#[trigger] u[k]) by {
            assert(u[k] == t[k - m]);
        }
        lemma_trimmed_gap(u, m);
        assert(u.take(m) =~= body);
    }
    assert(config::comment_in(line) =~= t.skip(g));
    if line.contains('\n') {
        lemma_bare_key(key);
        let k = choose|k: int| 0 <= k < line.len() && line[k] == '\n';
        if k < n {
            assert(key[k] == '\n');
        } else if n + 3 <= k < m {
            assert(w[k - n - 3] == '\n');
        } else if k >= m {
            assert(t[k - m] == '\n');
        }
    }
}

/// A line put in reads as what was meant.
proof fn lemma_pair_line(key: Seq<char>, w: Seq<char>)
    requires
        rewrite::bare_key(key),
        key.len() > 0,
        token(w),
    ensures
        config::line_of(rewrite::pair_line(key, w)) == Line::Pair(key, config::unquoted(w)),
        is_plain_pair(rewrite::pair_line(key, w)),
{
    let t = Seq::<char>::empty();
    lemma_told_line(key, w, t, 0);
    assert(rewrite::pair_line(key, w) + t =~= rewrite::pair_line(key, w));
}

proof fn lemma_quoted(v: Seq<char>)
    requires
        rewrite::quotable(v),
    ensures
        token(rewrite::quoted(v)),
        config::unquoted(rewrite::quoted(v)) == v,
{
    let q = if v.contains('\'') && !v.contains('"') {
        '"'
    } else {
        '\''
    };
    let w = rewrite::quoted(v);
    let n = w.len() as int;
    assert(w[0] == q && w[n - 1] == q);
    assert forall|k: int| 1 <= k < n - 1 implies #[trigger] w[k] != q by {
        assert(w[k] == v[k - 1]);
        assert(v.contains(v[k - 1]));
    }
    assert(w.skip(1)[n - 2] == q);
    let at = literal_in(w);
    let x = w.push('#');
    assert forall|k: int| 1 <= k < n - 1 implies #[trigger] x[k] != q by {
        assert(x[k] == w[k]);
    }
    assert(x[0] == q && x[n - 1] == q && x[n] == '#');
    lemma_scan_quoted(x, 1, n - 1, q, at);
    assert(config::comment_at(x, n - 1, Some(q), at) == config::comment_at(x, n, None, at));
    assert(config::comment_at(x, 0, None, at) == config::comment_at(x, 1, Some(q), at));
    assert(w.subrange(1, n - 1) =~= v);
    if w.contains('\n') {
        let k = choose|k: int| 0 <= k < n && w[k] == '\n';
        assert(v[k - 1] == '\n');
    }
}

proof fn lemma_flag_word(on: bool)
    ensures
        token(rewrite::flag_word(on)),
        config::unquoted(rewrite::flag_word(on)) == rewrite::flag_word(on),
        config::is_true(rewrite::flag_word(on)) == on,
{
    reveal_strlit("true");
    reveal_strlit("false");
    let w = rewrite::flag_word(on);
    assert forall|k: int| 0 <= k < w.len() implies plain_char(#[trigger] w[k]) && w[k] != '\n' by {
    }
    assert(plain_char(w[0]));
    let x = w.push('#');
    assert forall|k: int| 0 <= k < w.len() implies plain_char(#[trigger] x[k]) by {
        assert(x[k] == w[k]);
    }
    lemma_scan_plain(x, 0, w.len() as int, -1);
    assert(x[w.len() as int] == '#');
}

// ---- what an edit does ----------------------------------------------------------------------

proof fn lemma_blank(line: Seq<char>)
    requires
        line.len() == 0,
    ensures
        config::line_of(line) == Line::Other,
        !line.contains('\n'),
        rewrite::remains(line).len() == 0,
{
    assert(config::uncommented(line) =~= line);
}

proof fn lemma_heading_at(lines: Seq<Seq<char>>, section: Seq<char>)
    ensures
        ({
            let h = rewrite::heading_at(lines, section);
            &&& 0 <= h <= lines.len()
            &&& h < lines.len() ==> config::line_of(lines[h]) == Line::Header(section)
            &&& forall|j: int|
                0 <= j < h ==> config::line_of(#[trigger] lines[j]) != Line::Header(section)
        }),
{
    pieces::lemma_first_where(
        lines,
        |l: Seq<char>| config::line_of(l) == Line::Header(section),
    );
}

/// No line holds a newline.
pub open spec fn single_lines(lines: Seq<Seq<char>>) -> bool {
    forall|i: int| 0 <= i < lines.len() ==> !(#[trigger] lines[i]).contains('\n')
}

proof fn lemma_single_concat(a: Seq<Seq<char>>, b: Seq<Seq<char>>)
    requires
        single_lines(a),
        single_lines(b),
    ensures
        single_lines(a + b),
{
    assert forall|i: int| 0 <= i < (a + b).len() implies !(#[trigger] (a + b)[i]).contains(
        '\n',
    ) by {
        if i < a.len() {
            assert((a + b)[i] == a[i]);
        } else {
            assert((a + b)[i] == b[i - a.len()]);
        }
    }
}

/// The lines up to a section's heading set nothing in it and end in it.
proof fn lemma_up_to_heading(lines: Seq<Seq<char>>, section: Seq<char>, h: int)
    requires
        section.len() > 0,
        0 <= h < lines.len(),
        config::line_of(lines[h]) == Line::Header(section),
        forall|j: int| 0 <= j < h ==> config::line_of(#[trigger] lines[j]) != Line::Header(section),
    ensures
        config::section_after(Seq::empty(), lines.take(h + 1)) == section,
        of_section(config::pairs_of(Seq::empty(), lines.take(h + 1)), section).len() == 0,
{
    let e = Seq::<char>::empty();
    let front = lines.take(h);
    let a = lines.take(h + 1);
    assert(a.drop_last() =~= front);
    assert(a.last() == lines[h]);
    assert(config::pairs_of(e, a) == config::pairs_of(e, front));
    assert(e != section);
    assert forall|i: int| 0 <= i < front.len() implies config::line_of(#[trigger] front[i])
        != Line::Header(section) by {
        assert(front[i] == lines[i]);
    }
    lemma_no_heading_no_settings(e, front, section);
}

/// Where the section's heading is there, the lines go in behind it.
proof fn lemma_placed_behind(
    lines: Seq<Seq<char>>,
    section: Seq<char>,
    added: Seq<Seq<char>>,
)
    requires
        section.len() > 0,
        only_pairs(added),
        rewrite::heading_at(lines, section) < lines.len(),
    ensures
        ({
            let new = rewrite::placed(lines, section, added);
            let (p, q) = (config::pairs_of(Seq::empty(), lines), config::pairs_of(Seq::empty(), new));
            let ad = config::pairs_of(section, added);
            &&& of_section(q, section) == ad + of_section(p, section)
            &&& forall|other: Seq<char>|
                other != section ==> #[trigger] of_section(q, other) == of_section(p, other)
            &&& around(Seq::empty(), new, section) == around(Seq::empty(), lines, section)
        }),
{
    let h = rewrite::heading_at(lines, section);
    lemma_heading_at(lines, section);
    let a = lines.take(h + 1);
    let back = lines.skip(h + 1);
    lemma_up_to_heading(lines, section, h);
    assert(rewrite::placed(lines, section, added) =~= a + (added + back));
    assert(lines =~= a + back);
    lemma_pairs_behind(a, back, section, added);
    lemma_lines_behind(a, back, section, added);
}

proof fn lemma_pairs_behind(
    a: Seq<Seq<char>>,
    back: Seq<Seq<char>>,
    section: Seq<char>,
    added: Seq<Seq<char>>,
)
    requires
        only_pairs(added),
        config::section_after(Seq::empty(), a) == section,
        of_section(config::pairs_of(Seq::empty(), a), section).len() == 0,
    ensures
        ({
            let p = config::pairs_of(Seq::empty(), a + back);
            let q = config::pairs_of(Seq::empty(), a + (added + back));
            &&& of_section(q, section) == config::pairs_of(section, added) + of_section(p, section)
            &&& forall|other: Seq<char>|
                other != section ==> #[trigger] of_section(q, other) == of_section(p, other)
        }),
{
    let e = Seq::<char>::empty();
    lemma_only_pairs(section, added);
    lemma_pairs_concat(e, a, back);
    lemma_pairs_concat(e, a, added + back);
    lemma_pairs_concat(section, added, back);
    let ad = config::pairs_of(section, added);
    let pa = config::pairs_of(e, a);
    let pb = config::pairs_of(section, back);
    let (p, q) = (pa + pb, pa + (ad + pb));
    lemma_of_section_concat(pa, pb, section);
    lemma_of_section_concat(pa, ad + pb, section);
    lemma_of_section_concat(ad, pb, section);
    assert(of_section(q, section) =~= ad + of_section(p, section));
    assert forall|other: Seq<char>| other != section implies #[trigger] of_section(q, other)
        == of_section(p, other) by {
        lemma_of_section_concat(pa, pb, other);
        lemma_of_section_concat(pa, ad + pb, other);
        lemma_of_section_concat(ad, pb, other);
        lemma_elsewhere(ad, section, other);
        assert(of_section(q, other) =~= of_section(p, other));
    }
}

proof fn lemma_lines_behind(
    a: Seq<Seq<char>>,
    back: Seq<Seq<char>>,
    section: Seq<char>,
    added: Seq<Seq<char>>,
)
    requires
        only_pairs(added),
        config::section_after(Seq::empty(), a) == section,
    ensures
        around(Seq::empty(), a + (added + back), section) == around(
            Seq::empty(),
            a + back,
            section,
        ),
{
    let e = Seq::<char>::empty();
    lemma_only_pairs(section, added);
    lemma_around_concat(e, a, back, section);
    lemma_around_concat(e, a, added + back, section);
    lemma_around_concat(section, added, back, section);
    assert(around(section, added, section) + around(section, back, section) =~= around(
        section,
        back,
        section,
    ));
}

proof fn lemma_elsewhere(pairs: Seq<Setting>, section: Seq<char>, other: Seq<char>)
    requires
        other != section,
        of_section(pairs, section) == pairs,
    ensures
        of_section(pairs, other).len() == 0,
    decreases pairs.len(),
{
    if pairs.len() > 0 {
        let rest = pairs.drop_first();
        lemma_of_section_len(rest, section);
        assert(pairs[0].section == section);
        assert(pairs =~= seq![pairs[0]] + rest);
        assert((seq![pairs[0]] + of_section(rest, section)).drop_first() =~= of_section(
            rest,
            section,
        ));
        lemma_elsewhere(rest, section, other);
    }
}

proof fn lemma_of_section_len(pairs: Seq<Setting>, section: Seq<char>)
    ensures
        of_section(pairs, section).len() <= pairs.len(),
    decreases pairs.len(),
{
    if pairs.len() > 0 {
        lemma_of_section_len(pairs.drop_first(), section);
    }
}

/// Where it is not, the heading and the lines go in at the end.
proof fn lemma_placed_at_the_end(
    lines: Seq<Seq<char>>,
    section: Seq<char>,
    added: Seq<Seq<char>>,
)
    requires
        section.len() > 0,
        rewrite::bare_key(section),
        only_pairs(added),
        rewrite::heading_at(lines, section) == lines.len(),
    ensures
        ({
            let new = rewrite::placed(lines, section, added);
            let (p, q) = (config::pairs_of(Seq::empty(), lines), config::pairs_of(Seq::empty(), new));
            let ad = config::pairs_of(section, added);
            &&& of_section(p, section).len() == 0
            &&& of_section(q, section) == ad
            &&& forall|other: Seq<char>|
                other != section ==> #[trigger] of_section(q, other) == of_section(p, other)
        }),
{
    let e = Seq::<char>::empty();
    lemma_heading_at(lines, section);
    assert(e != section);
    lemma_no_heading_no_settings(e, lines, section);
    lemma_only_pairs(section, added);
    let new = rewrite::placed(lines, section, added);
    let p = config::pairs_of(e, lines);
    let q = config::pairs_of(e, new);
    let ad = config::pairs_of(section, added);
    if added.len() == 0 {
        assert(of_section(q, section) =~= ad);
    } else {
        let b = rewrite::body(lines);
        let head = rewrite::heading(section);
        lemma_heading(section);
        if b != lines {
            lemma_blank(lines.last());
        }
        assert(config::pairs_of(e, b) == p);
        let a = b.push(head);
        assert(a.drop_last() =~= b);
        assert(config::section_after(e, a) == section);
        assert(config::pairs_of(e, a) == p);
        let blank = Seq::<char>::empty();
        lemma_blank(blank);
        let tail = added.push(blank);
        assert(tail.drop_last() =~= added);
        assert(config::pairs_of(section, tail) == ad);
        lemma_pairs_concat(e, a, tail);
        assert(q == p + ad);
        lemma_of_section_concat(p, ad, section);
        assert(of_section(q, section) =~= ad);
        assert forall|other: Seq<char>| other != section implies #[trigger] of_section(q, other)
            == of_section(p, other) by {
            lemma_of_section_concat(p, ad, other);
            lemma_elsewhere(ad, section, other);
            assert(of_section(q, other) =~= of_section(p, other));
        }
    }
}

proof fn lemma_placed_single(
    lines: Seq<Seq<char>>,
    section: Seq<char>,
    added: Seq<Seq<char>>,
)
    requires
        rewrite::bare_key(section),
        only_pairs(added),
        single_lines(lines),
        lines.len() > 0,
    ensures
        single_lines(rewrite::placed(lines, section, added)),
        rewrite::placed(lines, section, added).len() > 0,
{
    lemma_heading(section);
    lemma_heading_at(lines, section);
    let h = rewrite::heading_at(lines, section);
    assert(single_lines(added));
    if h < lines.len() {
        let (a, b) = (lines.take(h + 1), lines.skip(h + 1));
        assert forall|i: int| 0 <= i < a.len() implies !(#[trigger] a[i]).contains('\n') by {
            assert(a[i] == lines[i]);
        }
        assert forall|i: int| 0 <= i < b.len() implies !(#[trigger] b[i]).contains('\n') by {
            assert(b[i] == lines[h + 1 + i]);
        }
        lemma_single_concat(a, added);
        lemma_single_concat(a + added, b);
    } else if added.len() > 0 {
        let body = rewrite::body(lines);
        let head = body.push(rewrite::heading(section));
        let blank = Seq::<char>::empty();
        lemma_blank(blank);
        assert forall|i: int| 0 <= i < head.len() implies !(#[trigger] head[i]).contains(
            '\n',
        ) by {
            if i < body.len() {
                assert(head[i] == lines[i]);
            }
        }
        let tail = added.push(blank);
        assert forall|i: int| 0 <= i < tail.len() implies !(#[trigger] tail[i]).contains(
            '\n',
        ) by {
            if i < added.len() {
                assert(tail[i] == added[i]);
            }
        }
        lemma_single_concat(head, tail);
    }
}

/// Putting lines in touches no comment.
proof fn lemma_placed_comments(
    lines: Seq<Seq<char>>,
    section: Seq<char>,
    added: Seq<Seq<char>>,
)
    requires
        rewrite::bare_key(section),
        only_pairs(added),
    ensures
        comments_of(rewrite::placed(lines, section, added)) == comments_of(lines),
{
    lemma_heading(section);
    lemma_heading_at(lines, section);
    lemma_only_pairs(section, added);
    let h = rewrite::heading_at(lines, section);
    let new = rewrite::placed(lines, section, added);
    if h < lines.len() {
        let (a, b) = (lines.take(h + 1), lines.skip(h + 1));
        lemma_comments_concat(a, added);
        lemma_comments_concat(a + added, b);
        lemma_comments_concat(a, b);
        assert(a + b =~= lines);
        assert(comments_of(new) =~= comments_of(lines));
    } else if added.len() > 0 {
        let body = rewrite::body(lines);
        if body != lines {
            lemma_blank(lines.last());
            assert(comments_of(lines) =~= comments_of(body));
        }
        let blank = Seq::<char>::empty();
        lemma_blank(blank);
        let head = body.push(rewrite::heading(section));
        let tail = added.push(blank);
        assert(head.drop_last() =~= body);
        assert(tail.drop_last() =~= added);
        assert(comments_of(head) =~= comments_of(body));
        assert(comments_of(tail) =~= Seq::empty());
        lemma_comments_concat(head, tail);
        assert(comments_of(new) =~= comments_of(lines));
    }
}

/// A section name fit for a heading: not empty, and a bare key.
pub open spec fn section_name(section: Seq<char>) -> bool {
    section.len() > 0 && rewrite::bare_key(section)
}

/// Every `key = value` of a text, in order.
pub open spec fn pairs_in(s: Seq<char>) -> Seq<Setting> {
    config::pairs_of(Seq::empty(), pieces::split_on(s, '\n'))
}

proof fn lemma_edited_lines(
    s: Seq<char>,
    section: Seq<char>,
    c: Choice,
    added: Seq<Seq<char>>,
)
    requires
        section_name(section),
        only_pairs(added),
    ensures
        ({
            let lines = pieces::split_on(s, '\n');
            let left = rewrite::kept(Seq::empty(), lines, section, c);
            &&& left.len() > 0
            &&& pieces::split_on(rewrite::edited(s, section, c, added), '\n') == rewrite::placed(
                left,
                section,
                added,
            )
        }),
{
    let lines = pieces::split_on(s, '\n');
    pieces::law_split_then_join(s, '\n');
    let e = Seq::<char>::empty();
    let left = rewrite::kept(e, lines, section, c);
    lemma_kept_from(e, lines, section, c);
    lemma_first_line_stays(lines, section, c);
    lemma_placed_single(left, section, added);
    pieces::law_join_then_split(rewrite::placed(left, section, added), '\n');
}

proof fn lemma_first_line_stays(lines: Seq<Seq<char>>, section: Seq<char>, c: Choice)
    requires
        lines.len() > 0,
        section.len() > 0,
    ensures
        rewrite::kept(Seq::empty(), lines, section, c).len() > 0,
    decreases lines.len(),
{
    let e = Seq::<char>::empty();
    if lines.len() == 1 {
        assert(lines.drop_last() =~= Seq::empty());
        assert(config::section_after(e, lines.drop_last()) == e);
        assert(e != section);
    } else {
        lemma_first_line_stays(lines.drop_last(), section, c);
    }
}

/// An edit changes the settings of its own section alone: those of every other
/// section stay, in order. In its own section the new settings come first,
/// then those that were not picked.
pub proof fn law_edits_stay_in_their_section(
    s: Seq<char>,
    section: Seq<char>,
    c: Choice,
    added: Seq<Seq<char>>,
    other: Seq<char>,
)
    requires
        section_name(section),
        only_pairs(added),
    ensures
        ({
            let new = rewrite::edited(s, section, c, added);
            &&& other != section ==> of_section(pairs_in(new), other) == of_section(
                pairs_in(s),
                other,
            )
            &&& of_section(pairs_in(new), section) == config::pairs_of(section, added)
                + of_section(unpicked(pairs_in(s), section, c), section)
        }),
{
    let e = Seq::<char>::empty();
    let lines = pieces::split_on(s, '\n');
    let left = rewrite::kept(e, lines, section, c);
    lemma_edited_lines(s, section, c, added);
    lemma_kept(e, lines, section, c);
    lemma_heading_at(left, section);
    if rewrite::heading_at(left, section) < left.len() {
        lemma_placed_behind(left, section, added);
    } else {
        lemma_placed_at_the_end(left, section, added);
        let rest = of_section(unpicked(pairs_in(s), section, c), section);
        assert(rest =~= Seq::empty());
        assert(config::pairs_of(section, added) + rest =~= config::pairs_of(section, added));
    }
    if other != section {
        lemma_unpicked_elsewhere(config::pairs_of(e, lines), section, c, other);
    }
}

/// An edit keeps everything around the settings of its section - other
/// sections, headings, blank lines, and every comment, on a line of its own or
/// behind a setting - byte for byte and in order. Where the section is new, the
/// whole text stays and the section follows it.
pub proof fn law_edits_keep_every_other_line(
    s: Seq<char>,
    section: Seq<char>,
    c: Choice,
    added: Seq<Seq<char>>,
)
    requires
        section_name(section),
        only_pairs(added),
    ensures
        ({
            let lines = pieces::split_on(s, '\n');
            let new = pieces::split_on(rewrite::edited(s, section, c, added), '\n');
            if rewrite::heading_at(lines, section) < lines.len() {
                around(Seq::empty(), new, section) == around(Seq::empty(), lines, section)
            } else {
                s.is_prefix_of(rewrite::edited(s, section, c, added))
            }
        }),
        comments_in(rewrite::edited(s, section, c, added)) == comments_in(s),
{
    let e = Seq::<char>::empty();
    let lines = pieces::split_on(s, '\n');
    let left = rewrite::kept(e, lines, section, c);
    lemma_edited_lines(s, section, c, added);
    lemma_kept(e, lines, section, c);
    lemma_heading_at(lines, section);
    lemma_heading_at(left, section);
    lemma_heading_stays(e, lines, section, c);
    lemma_placed_comments(left, section, added);
    if rewrite::heading_at(lines, section) < lines.len() {
        lemma_placed_behind(left, section, added);
    } else {
        assert(e != section);
        lemma_no_heading_no_settings(e, lines, section);
        lemma_nothing_goes(e, lines, section, c);
        assert(left == lines);
        pieces::law_split_then_join(s, '\n');
        let new = rewrite::placed(lines, section, added);
        if added.len() == 0 {
            assert(s =~= pieces::joined(new, '\n').subrange(0, s.len() as int));
        } else {
            let b = rewrite::body(lines);
            let tail = seq![rewrite::heading(section)] + added.push(Seq::empty());
            assert(new =~= b + tail);
            if b.len() == 0 {
                assert(lines =~= seq![Seq::empty()]);
                assert(s =~= Seq::empty());
            } else {
                lemma_joined_prefix(b, tail, '\n');
                if b != lines {
                    assert(lines.drop_last() =~= b);
                    assert(s =~= pieces::joined(b, '\n').push('\n'));
                }
            }
            assert(s =~= pieces::joined(new, '\n').subrange(0, s.len() as int));
        }
    }
}

proof fn lemma_joined_prefix(a: Seq<Seq<char>>, b: Seq<Seq<char>>, c: char)
    requires
        a.len() > 0,
        b.len() > 0,
    ensures
        pieces::joined(a, c).push(c).is_prefix_of(pieces::joined(a + b, c)),
    decreases b.len(),
{
    let j = pieces::joined(a + b, c);
    let p = pieces::joined(a, c).push(c);
    assert((a + b).drop_last() =~= a + b.drop_last());
    if b.len() == 1 {
        assert(a + b.drop_last() =~= a);
        assert(j =~= p + b[0]);
        assert(p =~= j.subrange(0, p.len() as int));
    } else {
        lemma_joined_prefix(a, b.drop_last(), c);
        let q = pieces::joined(a + b.drop_last(), c);
        assert(j =~= q.push(c) + b.last());
        assert(p =~= q.subrange(0, p.len() as int));
        assert(p =~= j.subrange(0, p.len() as int));
    }
}

proof fn lemma_nothing_goes(start: Seq<char>, lines: Seq<Seq<char>>, section: Seq<char>, c: Choice)
    requires
        start != section,
        forall|i: int|
            0 <= i < lines.len() ==> config::line_of(#[trigger] lines[i]) != Line::Header(section),
    ensures
        rewrite::kept(start, lines, section, c) == lines,
    decreases lines.len(),
{
    if lines.len() > 0 {
        let t = lines.drop_last();
        assert forall|i: int| 0 <= i < t.len() implies config::line_of(#[trigger] t[i])
            != Line::Header(section) by {
            assert(t[i] == lines[i]);
        }
        lemma_nothing_goes(start, t, section, c);
        lemma_no_heading_no_settings(start, t, section);
        assert(t.push(lines.last()) =~= lines);
    }
}

/// A heading that is there is still there.
proof fn lemma_heading_stays(start: Seq<char>, lines: Seq<Seq<char>>, section: Seq<char>, c: Choice)
    ensures
        (rewrite::heading_at(lines, section) < lines.len()) == (rewrite::heading_at(
            rewrite::kept(start, lines, section, c),
            section,
        ) < rewrite::kept(start, lines, section, c).len()),
    decreases lines.len(),
{
    if lines.len() > 0 {
        let t = lines.drop_last();
        lemma_heading_stays(start, t, section, c);
        let k = rewrite::kept(start, t, section, c);
        let r = rewrite::kept(start, lines, section, c);
        lemma_heading_last(t, lines.last(), section);
        assert(t.push(lines.last()) =~= lines);
        lemma_heading_last(k, lines.last(), section);
        let left = rewrite::remains(lines.last());
        lemma_remains(start, lines.last(), section);
        if left.len() == 1 {
            lemma_heading_last(k, left[0], section);
            assert(k + left =~= k.push(left[0]));
        } else {
            assert(k + left =~= k);
        }
    }
}

proof fn lemma_heading_last(lines: Seq<Seq<char>>, x: Seq<char>, section: Seq<char>)
    ensures
        (rewrite::heading_at(lines.push(x), section) < lines.len() + 1) == ((rewrite::heading_at(
            lines,
            section,
        ) < lines.len()) || config::line_of(x) == Line::Header(section)),
{
    let n = lines.len() as int;
    let m = lines.push(x);
    lemma_heading_at(lines, section);
    lemma_heading_at(m, section);
    let h = rewrite::heading_at(lines, section);
    let g = rewrite::heading_at(m, section);
    assert(m[n] == x);
    if h < n {
        assert(m[h] == lines[h]);
        if g > n {
            assert(config::line_of(m[h]) != Line::Header(section));
        }
    } else if g < n {
        assert(m[g] == lines[g]);
        assert(config::line_of(lines[g]) != Line::Header(section));
    }
}

// ---- what reads back --------------------------------------------------------------------

proof fn lemma_put_front(s: Seq<Setting>, x: Setting)
    requires
        s.len() > 0,
    ensures
        config::put(s, x) == if config::same_key(s[0], x) {
            seq![x] + s.drop_first()
        } else {
            seq![s[0]] + config::put(s.drop_first(), x)
        },
{
    let t = s.drop_first();
    config::lemma_place_of(s, x.section, x.key);
    config::lemma_place_of(t, x.section, x.key);
    let i = config::place_of(s, x.section, x.key);
    if config::same_key(s[0], x) {
        assert(config::put(s, x) =~= seq![x] + t);
    } else {
        assert(i == 1 + config::place_of(t, x.section, x.key));
        assert(config::put(s, x) =~= seq![s[0]] + config::put(t, x));
    }
}

proof fn lemma_of_section_put(s: Seq<Setting>, x: Setting, section: Seq<char>)
    ensures
        of_section(config::put(s, x), section) == if x.section == section {
            config::put(of_section(s, section), x)
        } else {
            of_section(s, section)
        },
    decreases s.len(),
{
    reveal_with_fuel(of_section, 2);
    if s.len() == 0 {
        assert(config::put(s, x) =~= seq![x]);
        assert(seq![x].drop_first() =~= Seq::empty());
        assert(of_section(seq![x], section) =~= if x.section == section {
            seq![x]
        } else {
            Seq::empty()
        });
        assert(config::put(of_section(s, section), x) =~= seq![x]);
        assert(of_section(s, section) =~= Seq::empty());
    } else {
        let t = s.drop_first();
        lemma_of_section_put(t, x, section);
        lemma_put_front(s, x);
        let o = of_section(s, section);
        assert((seq![x] + t).drop_first() =~= t);
        assert((seq![s[0]] + config::put(t, x)).drop_first() =~= config::put(t, x));
        assert((seq![s[0]] + config::put(t, x))[0] == s[0]);
        assert((seq![x] + t)[0] == x);
        if s[0].section == section {
            assert(o[0] == s[0]);
            assert(o.drop_first() =~= of_section(t, section));
            lemma_put_front(o, x);
        }
    }
}

/// The settings of a section are settled among themselves.
proof fn lemma_settled_by_section(pairs: Seq<Setting>, section: Seq<char>)
    ensures
        of_section(config::settled(pairs), section) == config::settled(of_section(pairs, section)),
    decreases pairs.len(),
{
    reveal_with_fuel(of_section, 2);
    if pairs.len() == 0 {
        assert(of_section(config::settled(pairs), section) =~= Seq::empty());
    } else {
        let t = pairs.drop_last();
        let x = pairs.last();
        lemma_settled_by_section(t, section);
        lemma_of_section_put(config::settled(t), x, section);
        assert(pairs =~= t + seq![x]);
        lemma_of_section_concat(t, seq![x], section);
        let o = of_section(t, section);
        if x.section == section {
            assert(of_section(seq![x], section) =~= seq![x]);
            assert((o + seq![x]).drop_last() =~= o);
            assert((o + seq![x]).last() == x);
        } else {
            assert(of_section(seq![x], section) =~= Seq::empty());
            assert(o + Seq::<Setting>::empty() =~= o);
        }
    }
}

proof fn lemma_values_of_section(settings: Seq<Setting>, section: Seq<char>)
    ensures
        config::values_in(settings, section) == of_section(settings, section).map_values(
            |x: Setting| x.value,
        ),
    decreases settings.len(),
{
    reveal_with_fuel(of_section, 2);
    let f = |x: Setting| x.value;
    if settings.len() == 0 {
        assert(of_section(settings, section).map_values(f) =~= Seq::empty());
    } else {
        let t = settings.drop_last();
        let x = settings.last();
        lemma_values_of_section(t, section);
        assert(settings =~= t + seq![x]);
        lemma_of_section_concat(t, seq![x], section);
        let o = of_section(t, section);
        if x.section == section {
            assert(of_section(seq![x], section) =~= seq![x]);
            assert((o + seq![x]).map_values(f) =~= o.map_values(f).push(x.value));
        } else {
            assert(of_section(seq![x], section) =~= Seq::empty());
            assert(o + Seq::<Setting>::empty() =~= o);
        }
    }
}

proof fn lemma_settled_unique(pairs: Seq<Setting>)
    requires
        config::unique(pairs),
    ensures
        config::settled(pairs) == pairs,
    decreases pairs.len(),
{
    if pairs.len() > 0 {
        let t = pairs.drop_last();
        let x = pairs.last();
        assert forall|i: int, j: int| 0 <= i < j < t.len() implies !config::same_key(
            #[trigger] t[i],
            #[trigger] t[j],
        ) by {
            assert(!config::same_key(pairs[i], pairs[j]));
        }
        lemma_settled_unique(t);
        assert forall|j: int| 0 <= j < t.len() implies !((#[trigger] t[j]).section == x.section
            && t[j].key == x.key) by {
            assert(!config::same_key(pairs[j], pairs[pairs.len() - 1]));
        }
        config::lemma_place_of_is(t, x.section, x.key, t.len() as int);
        assert(t.push(x) =~= pairs);
    }
}

proof fn lemma_list_lines(section: Seq<char>, values: Seq<Seq<char>>)
    requires
        forall|i: int| 0 <= i < values.len() ==> rewrite::quotable(#[trigger] values[i]),
    ensures
        only_pairs(rewrite::list_lines(values)),
        config::unique(config::pairs_of(section, rewrite::list_lines(values))),
        config::pairs_of(section, rewrite::list_lines(values)).map_values(|x: Setting| x.value)
            == values,
{
    let lines = rewrite::list_lines(values);
    assert forall|i: int| 0 <= i < lines.len() implies config::line_of(#[trigger] lines[i])
        == Line::Pair(numbers::shown((i + 1) as nat), values[i]) && is_plain_pair(lines[i]) by {
        let key = numbers::shown((i + 1) as nat);
        numbers::lemma_shown((i + 1) as nat);
        assert forall|k: int| 0 <= k < key.len() implies rewrite::key_char(#[trigger] key[k]) by {
            assert(text::is_digit(key[k]));
        }
        lemma_quoted(values[i]);
        lemma_pair_line(key, rewrite::quoted(values[i]));
    }
    assert(only_pairs(lines)) by {
        assert forall|i: int| 0 <= i < lines.len() implies is_plain_pair(#[trigger] lines[i]) by {
            assert(config::line_of(lines[i]) == Line::Pair(
                numbers::shown((i + 1) as nat),
                values[i],
            ));
        }
    }
    lemma_only_pairs(section, lines);
    let p = config::pairs_of(section, lines);
    assert forall|i: int| 0 <= i < lines.len() implies (#[trigger] p[i]).key == numbers::shown(
        (i + 1) as nat,
    ) && p[i].value == values[i] by {
        assert(config::line_of(lines[i]) == Line::Pair(numbers::shown((i + 1) as nat), values[i]));
    }
    assert forall|i: int, j: int| 0 <= i < j < p.len() implies !config::same_key(
        #[trigger] p[i],
        #[trigger] p[j],
    ) by {
        if p[i].key == p[j].key {
            numbers::law_shown_numbers_differ((i + 1) as nat, (j + 1) as nat);
        }
    }
    assert(p.map_values(|x: Setting| x.value) =~= values);
}

/// A list that was written reads back as it was. No comment is lost.
pub proof fn law_lists_read_back(s: Seq<char>, section: Seq<char>, values: Seq<Seq<char>>)
    requires
        section_name(section),
        forall|i: int| 0 <= i < values.len() ==> rewrite::quotable(#[trigger] values[i]),
    ensures
        config::values_in(config::settings_of(rewrite::with_list(s, section, values)), section)
            == values,
        comments_in(rewrite::with_list(s, section, values)) == comments_in(s),
{
    let new = rewrite::with_list(s, section, values);
    let lines = rewrite::list_lines(values);
    lemma_list_lines(section, values);
    law_edits_stay_in_their_section(s, section, rewrite::every(), lines, section);
    law_edits_keep_every_other_line(s, section, rewrite::every(), lines);
    let rest = of_section(unpicked(pairs_in(s), section, rewrite::every()), section);
    lemma_unpicked_here(pairs_in(s), section, rewrite::every());
    if rest.len() > 0 {
        assert(!rewrite::every().picks(rest[0].key, rest[0].value));
    }
    let ad = config::pairs_of(section, lines);
    assert(ad + rest =~= ad);
    lemma_settled_by_section(pairs_in(new), section);
    lemma_settled_unique(ad);
    lemma_values_of_section(config::settled(pairs_in(new)), section);
}

/// Settings that do not mention a key leave its value alone.
proof fn lemma_lookup_past(
    pairs: Seq<Setting>,
    rest: Seq<Setting>,
    section: Seq<char>,
    key: Seq<char>,
)
    requires
        forall|i: int|
            0 <= i < rest.len() ==> !((#[trigger] rest[i]).section == section && rest[i].key
                == key),
    ensures
        config::lookup(config::settled(pairs + rest), section, key) == config::lookup(
            config::settled(pairs),
            section,
            key,
        ),
    decreases rest.len(),
{
    if rest.len() == 0 {
        assert(pairs + rest =~= pairs);
    } else {
        let t = rest.drop_last();
        let x = rest[rest.len() - 1];
        assert forall|i: int| 0 <= i < t.len() implies !((#[trigger] t[i]).section == section
            && t[i].key == key) by {
            assert(t[i] == rest[i]);
        }
        lemma_lookup_past(pairs, t, section, key);
        config::law_the_last_value_counts(pairs + t, x, section, key);
        assert((pairs + t).push(x) =~= pairs + rest);
    }
}

/// A key's value is decided within its section.
proof fn lemma_lookup_by_section(settings: Seq<Setting>, section: Seq<char>, key: Seq<char>)
    ensures
        config::lookup(settings, section, key) == config::lookup(
            of_section(settings, section),
            section,
            key,
        ),
    decreases settings.len(),
{
    if settings.len() > 0 {
        let t = settings.drop_first();
        lemma_lookup_by_section(t, section, key);
        config::lemma_place_of(t, section, key);
        config::lemma_place_of(of_section(t, section), section, key);
        let o = of_section(settings, section);
        if settings[0].section == section {
            assert(o.drop_first() =~= of_section(t, section));
            assert(o[0] == settings[0]);
            if settings[0].key != key {
                let k = config::place_of(t, section, key);
                let j = config::place_of(of_section(t, section), section, key);
                if k < t.len() {
                    assert(settings[k + 1] == t[k]);
                }
                if j < of_section(t, section).len() {
                    assert(o[j + 1] == of_section(t, section)[j]);
                }
            }
        } else {
            let k = config::place_of(t, section, key);
            if k < t.len() {
                assert(settings[k + 1] == t[k]);
            }
        }
    }
}

/// The value of a key after an edit whose choice picks the key: what the new
/// lines say of it.
proof fn lemma_edited_lookup(
    s: Seq<char>,
    section: Seq<char>,
    c: Choice,
    added: Seq<Seq<char>>,
    key: Seq<char>,
)
    requires
        section_name(section),
        only_pairs(added),
        c.all || c.keys.contains(key),
        !c.spared.contains(key),
    ensures
        config::lookup(config::settings_of(rewrite::edited(s, section, c, added)), section, key)
            == config::lookup(config::settled(config::pairs_of(section, added)), section, key),
{
    let new = rewrite::edited(s, section, c, added);
    law_edits_stay_in_their_section(s, section, c, added, section);
    let rest = of_section(unpicked(pairs_in(s), section, c), section);
    lemma_unpicked_here(pairs_in(s), section, c);
    let ad = config::pairs_of(section, added);
    assert forall|i: int| 0 <= i < rest.len() implies !((#[trigger] rest[i]).section == section
        && rest[i].key == key) by {
        assert(!c.picks(rest[i].key, rest[i].value));
    }
    lemma_lookup_past(ad, rest, section, key);
    lemma_settled_by_section(pairs_in(new), section);
    lemma_lookup_by_section(config::settled(pairs_in(new)), section, key);
}

proof fn lemma_single_setting(section: Seq<char>, line: Seq<char>, key: Seq<char>, value: Seq<char>)
    requires
        config::line_of(line) == Line::Pair(key, value),
    ensures
        config::pairs_of(section, seq![line]) == seq![Setting { section, key, value }],
        config::settled(seq![Setting { section, key, value }]) == seq![
            Setting { section, key, value },
        ],
        config::lookup(seq![Setting { section, key, value }], section, key) == Some(value),
{
    let x = Setting { section, key, value };
    assert(seq![line].drop_last() =~= Seq::empty());
    assert(config::pairs_of(section, seq![line]) =~= seq![x]) by {
        reveal_with_fuel(config::pairs_of, 2);
        reveal_with_fuel(config::section_after, 2);
    }
    assert(config::unique(seq![x]));
    lemma_settled_unique(seq![x]);
}

proof fn lemma_section_names()
    ensures
        section_name("aliases"@),
        section_name("general"@),
        rewrite::bare_key("quicklinks."@),
        rewrite::bare_key("name"@),
        rewrite::bare_key("link"@),
        rewrite::bare_key("open_with"@),
        "name"@.len() == 4,
        "link"@.len() == 4,
        "open_with"@.len() == 9,
        "quicklinks."@.len() == 11,
        "name"@ != "link"@,
{
    reveal_strlit("aliases");
    reveal_strlit("general");
    reveal_strlit("quicklinks.");
    reveal_strlit("name");
    reveal_strlit("link");
    reveal_strlit("open_with");
    assert("name"@[0] != "link"@[0]);
}

/// The settings with every value of a key another.
pub open spec fn revalued(
    pairs: Seq<Setting>,
    section: Seq<char>,
    key: Seq<char>,
    value: Seq<char>,
) -> Seq<Setting> {
    pairs.map_values(
        |x: Setting|
            if x.section == section && x.key == key {
                Setting { section, key, value }
            } else {
                x
            },
    )
}

proof fn lemma_trimmed_end(s: Seq<char>)
    ensures
        trimmed_end_at(s, rewrite::trimmed_end(s).len() as int),
    decreases s.len(),
{
    if s.len() > 0 && text::is_white(s.last()) {
        let t = s.drop_last();
        lemma_trimmed_end(t);
        let k = rewrite::trimmed_end(s).len() as int;
        assert forall|i: int| k <= i < s.len() implies text::is_white(#[trigger] s[i]) by {
            if i < t.len() {
                assert(t[i] == s[i]);
            }
        }
    }
}

/// From `k` on there is only white space.
spec fn trimmed_end_at(s: Seq<char>, k: int) -> bool {
    &&& 0 <= k <= s.len()
    &&& forall|i: int| k <= i < s.len() ==> text::is_white(#[trigger] s[i])
}

/// A line that was told another value reads as it, and keeps its comment.
proof fn lemma_retold_line(line: Seq<char>, key: Seq<char>, w: Seq<char>)
    requires
        rewrite::bare_key(key),
        key.len() > 0,
        token(w),
        !line.contains('\n'),
    ensures
        ({
            let new = rewrite::pair_line(key, w) + rewrite::tail_of(line);
            &&& config::line_of(new) == Line::Pair(key, config::unquoted(w))
            &&& rewrite::remains(new) == rewrite::remains(line)
            &&& !new.contains('\n')
        }),
{
    let u = config::uncommented(line);
    let t = rewrite::tail_of(line);
    config::lemma_comment_in(line);
    lemma_trimmed_end(u);
    let k = rewrite::trimmed_end(u).len() as int;
    let g = config::cut_at(line) - k;
    assert forall|i: int| 0 <= i < g implies text::is_white(#[trigger] t[i]) by {
        assert(t[i] == u[k + i]);
    }
    if g < t.len() {
        assert(t[g] == config::comment_in(line)[0]);
    }
    if t.contains('\n') {
        let i = choose|i: int| 0 <= i < t.len() && t[i] == '\n';
        assert(line[k + i] == '\n');
    }
    lemma_told_line(key, w, t, g);
    assert(t.skip(g) =~= config::comment_in(line));
}

/// Telling a key another value changes its settings, and nothing else.
proof fn lemma_retold(
    start: Seq<char>,
    lines: Seq<Seq<char>>,
    section: Seq<char>,
    key: Seq<char>,
    w: Seq<char>,
)
    requires
        rewrite::bare_key(key),
        key.len() > 0,
        token(w),
        single_lines(lines),
    ensures
        ({
            let r = rewrite::retold(start, lines, section, key, w);
            let p = config::pairs_of(start, lines);
            &&& r.len() == lines.len()
            &&& single_lines(r)
            &&& config::section_after(start, r) == config::section_after(start, lines)
            &&& config::pairs_of(start, r) == revalued(p, section, key, config::unquoted(w))
            &&& around(start, r, section) == around(start, lines, section)
            &&& comments_of(r) == comments_of(lines)
            &&& rewrite::is_set(start, lines, section, key) == exists|i: int|
                0 <= i < p.len() && (#[trigger] p[i]).section == section && p[i].key == key
        }),
    decreases lines.len(),
{
    let v = config::unquoted(w);
    let p = config::pairs_of(start, lines);
    let r = rewrite::retold(start, lines, section, key, w);
    if lines.len() == 0 {
        assert(revalued(p, section, key, v) =~= p);
    } else {
        let t = lines.drop_last();
        let line = lines[lines.len() - 1];
        assert forall|i: int| 0 <= i < t.len() implies !(#[trigger] t[i]).contains('\n') by {
            assert(t[i] == lines[i]);
        }
        assert(!line.contains('\n'));
        lemma_retold(start, t, section, key, w);
        let before = rewrite::retold(start, t, section, key, w);
        assert(r.drop_last() =~= before);
        let now = config::section_after(start, t);
        lemma_retold_line(line, key, w);
        assert forall|i: int| 0 <= i < r.len() implies !(#[trigger] r[i]).contains('\n') by {
            if i < before.len() {
                assert(r[i] == before[i]);
            }
        }
        let pt = config::pairs_of(start, t);
        if let Line::Pair(k, old_value) = config::line_of(line) {
            let x = Setting { section: now, key: k, value: old_value };
            assert(p == pt.push(x));
            assert(config::pairs_of(start, r) =~= revalued(p, section, key, v));
            if rewrite::sets(line, now, section, key) {
                assert(p[p.len() - 1].section == section && p[p.len() - 1].key == key);
            } else if exists|i: int|
                0 <= i < p.len() && (#[trigger] p[i]).section == section && p[i].key == key {
                let i = choose|i: int|
                    0 <= i < p.len() && (#[trigger] p[i]).section == section && p[i].key == key;
                assert(pt[i] == p[i]);
            }
            if exists|i: int|
                0 <= i < pt.len() && (#[trigger] pt[i]).section == section && pt[i].key == key {
                let i = choose|i: int|
                    0 <= i < pt.len() && (#[trigger] pt[i]).section == section && pt[i].key == key;
                assert(p[i] == pt[i]);
            }
        }
    }
}

/// Settings with another value for a key: the key has that value, if it was set
/// at all, and every other key the one it had.
proof fn lemma_revalued_lookup(
    pairs: Seq<Setting>,
    section: Seq<char>,
    key: Seq<char>,
    value: Seq<char>,
    sec: Seq<char>,
    k: Seq<char>,
)
    ensures
        config::lookup(config::settled(revalued(pairs, section, key, value)), sec, k) == if sec
            == section && k == key {
            if exists|i: int|
                0 <= i < pairs.len() && (#[trigger] pairs[i]).section == section && pairs[i].key
                    == key {
                Some(value)
            } else {
                None::<Seq<char>>
            }
        } else {
            config::lookup(config::settled(pairs), sec, k)
        },
    decreases pairs.len(),
{
    let r = revalued(pairs, section, key, value);
    if pairs.len() == 0 {
        assert(r =~= pairs);
    } else {
        let t = pairs.drop_last();
        let x = pairs[pairs.len() - 1];
        let y = r[r.len() - 1];
        lemma_revalued_lookup(t, section, key, value, sec, k);
        let rt = revalued(t, section, key, value);
        assert(t.push(x) =~= pairs);
        assert(rt.push(y) =~= r);
        config::law_the_last_value_counts(t, x, sec, k);
        config::law_the_last_value_counts(rt, y, sec, k);
        if exists|i: int|
            0 <= i < t.len() && (#[trigger] t[i]).section == section && t[i].key == key {
            let i = choose|i: int|
                0 <= i < t.len() && (#[trigger] t[i]).section == section && t[i].key == key;
            assert(pairs[i] == t[i]);
        }
        if exists|i: int|
            0 <= i < pairs.len() && (#[trigger] pairs[i]).section == section && pairs[i].key == key {
            let i = choose|i: int|
                0 <= i < pairs.len() && (#[trigger] pairs[i]).section == section && pairs[i].key
                    == key;
            if i < t.len() {
                assert(t[i] == pairs[i]);
            }
        }
    }
}

proof fn lemma_revalued_elsewhere(
    pairs: Seq<Setting>,
    section: Seq<char>,
    key: Seq<char>,
    value: Seq<char>,
    other: Seq<char>,
)
    requires
        other != section,
    ensures
        of_section(revalued(pairs, section, key, value), other) == of_section(pairs, other),
    decreases pairs.len(),
{
    let r = revalued(pairs, section, key, value);
    if pairs.len() == 0 {
        assert(r =~= pairs);
    } else {
        lemma_revalued_elsewhere(pairs.drop_first(), section, key, value, other);
        assert(r.drop_first() =~= revalued(pairs.drop_first(), section, key, value));
        assert(r[0].section == pairs[0].section);
    }
}

proof fn lemma_nothing_picked(pairs: Seq<Setting>, section: Seq<char>)
    ensures
        unpicked(pairs, section, rewrite::nothing()) == pairs,
    decreases pairs.len(),
{
    if pairs.len() > 0 {
        lemma_nothing_picked(pairs.drop_first(), section);
        assert(seq![pairs[0]] + pairs.drop_first() =~= pairs);
    }
}

/// Everything around the settings of the section stays, byte for byte; where
/// the section is new, the whole text stays in front of it.
pub open spec fn keeps_the_rest(
    s: Seq<char>,
    new: Seq<char>,
    section: Seq<char>,
    key: Seq<char>,
) -> bool {
    let lines = pieces::split_on(s, '\n');
    if rewrite::is_set(Seq::empty(), lines, section, key) || rewrite::heading_at(lines, section)
        < lines.len() {
        around(Seq::empty(), pieces::split_on(new, '\n'), section) == around(
            Seq::empty(),
            lines,
            section,
        )
    } else {
        s.is_prefix_of(new)
    }
}

/// The pairs of a text in which a key is set anew.
proof fn lemma_value_pairs(s: Seq<char>, section: Seq<char>, key: Seq<char>, w: Seq<char>)
    requires
        section_name(section),
        rewrite::bare_key(key),
        key.len() > 0,
        token(w),
    ensures
        ({
            let new = rewrite::with_value(s, section, key, w);
            let lines = pieces::split_on(s, '\n');
            let p = pairs_in(s);
            let v = config::unquoted(w);
            &&& rewrite::is_set(Seq::empty(), lines, section, key) ==> pairs_in(new) == revalued(
                p,
                section,
                key,
                v,
            )
            &&& !rewrite::is_set(Seq::empty(), lines, section, key) ==> of_section(
                pairs_in(new),
                section,
            ) == seq![Setting { section, key, value: v }] + of_section(p, section)
            &&& rewrite::is_set(Seq::empty(), lines, section, key) == exists|i: int|
                0 <= i < p.len() && (#[trigger] p[i]).section == section && p[i].key == key
            &&& forall|other: Seq<char>|
                other != section ==> #[trigger] of_section(pairs_in(new), other) == of_section(
                    p,
                    other,
                )
            &&& comments_in(new) == comments_in(s)
            &&& keeps_the_rest(s, new, section, key)
        }),
{
    let e = Seq::<char>::empty();
    let lines = pieces::split_on(s, '\n');
    let v = config::unquoted(w);
    let p = pairs_in(s);
    let new = rewrite::with_value(s, section, key, w);
    pieces::law_split_then_join(s, '\n');
    assert(single_lines(lines));
    lemma_retold(e, lines, section, key, w);
    if rewrite::is_set(e, lines, section, key) {
        let r = rewrite::retold(e, lines, section, key, w);
        pieces::law_join_then_split(r, '\n');
        assert forall|other: Seq<char>| other != section implies #[trigger] of_section(
            pairs_in(new),
            other,
        ) == of_section(p, other) by {
            lemma_revalued_elsewhere(p, section, key, v, other);
        }
    } else {
        let line = rewrite::pair_line(key, w);
        let added = seq![line];
        lemma_pair_line(key, w);
        assert(only_pairs(added));
        lemma_single_setting(section, line, key, v);
        law_edits_keep_every_other_line(s, section, rewrite::nothing(), added);
        law_edits_stay_in_their_section(s, section, rewrite::nothing(), added, section);
        lemma_nothing_picked(p, section);
        assert forall|other: Seq<char>| other != section implies #[trigger] of_section(
            pairs_in(new),
            other,
        ) == of_section(p, other) by {
            law_edits_stay_in_their_section(s, section, rewrite::nothing(), added, other);
        }
    }
}

/// A key that was set reads back, no other key changes its value, the settings
/// of every other section stay in order, and every comment and every other line
/// stays, byte for byte.
pub proof fn law_values_read_back(
    s: Seq<char>,
    section: Seq<char>,
    key: Seq<char>,
    w: Seq<char>,
    sec: Seq<char>,
    k: Seq<char>,
)
    requires
        section_name(section),
        rewrite::bare_key(key),
        key.len() > 0,
        token(w),
    ensures
        ({
            let new = rewrite::with_value(s, section, key, w);
            &&& config::lookup(config::settings_of(new), sec, k) == if sec == section && k == key {
                Some(config::unquoted(w))
            } else {
                config::lookup(config::settings_of(s), sec, k)
            }
            &&& sec != section ==> of_section(pairs_in(new), sec) == of_section(pairs_in(s), sec)
            &&& comments_in(new) == comments_in(s)
            &&& keeps_the_rest(s, new, section, key)
        }),
{
    let new = rewrite::with_value(s, section, key, w);
    let lines = pieces::split_on(s, '\n');
    let v = config::unquoted(w);
    let p = pairs_in(s);
    lemma_value_pairs(s, section, key, w);
    if rewrite::is_set(Seq::empty(), lines, section, key) {
        lemma_revalued_lookup(p, section, key, v, sec, k);
    } else {
        let q = pairs_in(new);
        lemma_settled_by_section(p, sec);
        lemma_settled_by_section(q, sec);
        lemma_lookup_by_section(config::settled(p), sec, k);
        lemma_lookup_by_section(config::settled(q), sec, k);
        if sec == section {
            let x = Setting { section, key, value: v };
            let o = of_section(p, section);
            lemma_of_section_from(p, section);
            if k == key {
                assert forall|i: int| 0 <= i < o.len() implies !((#[trigger] o[i]).section
                    == section && o[i].key == key) by {
                    assert(p.contains(o[i]));
                    let j = choose|j: int| 0 <= j < p.len() && p[j] == o[i];
                    assert(!(p[j].section == section && p[j].key == key));
                }
                lemma_lookup_past(seq![x], o, section, key);
                lemma_settled_unique(seq![x]);
                config::lemma_place_of_is(seq![x], section, key, 0);
            } else {
                lemma_lookup_behind(x, o, section, k);
            }
        }
    }
}

proof fn lemma_of_section_from(pairs: Seq<Setting>, section: Seq<char>)
    ensures
        forall|i: int|
            0 <= i < of_section(pairs, section).len() ==> pairs.contains(
                #[trigger] of_section(pairs, section)[i],
            ),
    decreases pairs.len(),
{
    if pairs.len() > 0 {
        let t = pairs.drop_first();
        lemma_of_section_from(t, section);
        let o = of_section(pairs, section);
        let ot = of_section(t, section);
        assert forall|i: int| 0 <= i < o.len() implies pairs.contains(#[trigger] o[i]) by {
            if pairs[0].section == section && i == 0 {
                assert(o[0] == pairs[0]);
            } else {
                let j = if pairs[0].section == section {
                    i - 1
                } else {
                    i
                };
                assert(o[i] == ot[j]);
                let k = choose|k: int| 0 <= k < t.len() && t[k] == ot[j];
                assert(pairs[k + 1] == o[i]);
            }
        }
    }
}

/// A setting in front leaves the values of other keys alone.
proof fn lemma_lookup_behind(x: Setting, rest: Seq<Setting>, section: Seq<char>, k: Seq<char>)
    requires
        x.key != k,
    ensures
        config::lookup(config::settled(seq![x] + rest), section, k) == config::lookup(
            config::settled(rest),
            section,
            k,
        ),
    decreases rest.len(),
{
    if rest.len() == 0 {
        assert(seq![x] + rest =~= Seq::<Setting>::empty().push(x));
        config::law_the_last_value_counts(Seq::empty(), x, section, k);
        assert(rest =~= Seq::empty());
    } else {
        let t = rest.drop_last();
        let y = rest.last();
        lemma_lookup_behind(x, t, section, k);
        config::law_the_last_value_counts(seq![x] + t, y, section, k);
        config::law_the_last_value_counts(t, y, section, k);
        assert((seq![x] + t).push(y) =~= seq![x] + rest);
        assert(t.push(y) =~= rest);
    }
}

/// Taking settings of a section out leaves the value of a key that was not
/// picked.
proof fn lemma_edited_leaves(
    s: Seq<char>,
    section: Seq<char>,
    c: Choice,
    sec: Seq<char>,
    k: Seq<char>,
)
    requires
        section_name(section),
        sec != section || !exists|v: Seq<char>| c.picks(k, v),
    ensures
        config::lookup(config::settings_of(rewrite::edited(s, section, c, Seq::empty())), sec, k)
            == config::lookup(config::settings_of(s), sec, k),
        comments_in(rewrite::edited(s, section, c, Seq::empty())) == comments_in(s),
{
    let added = Seq::<Seq<char>>::empty();
    let new = rewrite::edited(s, section, c, added);
    let (p, q) = (pairs_in(s), pairs_in(new));
    law_edits_keep_every_other_line(s, section, c, added);
    law_edits_stay_in_their_section(s, section, c, added, sec);
    lemma_settled_by_section(p, sec);
    lemma_settled_by_section(q, sec);
    lemma_lookup_by_section(config::settled(p), sec, k);
    lemma_lookup_by_section(config::settled(q), sec, k);
    if sec == section {
        let rest = of_section(unpicked(p, section, c), section);
        assert(of_section(q, section) =~= rest);
        lemma_unpicked_lookup(p, section, c, k);
    }
}

proof fn lemma_unpicked_lookup(pairs: Seq<Setting>, section: Seq<char>, c: Choice, k: Seq<char>)
    requires
        !exists|v: Seq<char>| c.picks(k, v),
    ensures
        config::lookup(config::settled(of_section(unpicked(pairs, section, c), section)), section, k)
            == config::lookup(config::settled(of_section(pairs, section)), section, k),
    decreases pairs.len(),
{
    reveal_with_fuel(of_section, 2);
    if pairs.len() > 0 {
        let t = pairs.drop_last();
        let x = pairs.last();
        lemma_unpicked_lookup(t, section, c, k);
        lemma_unpicked_push(t, x, section, c);
        assert(t.push(x) =~= pairs);
        let u = unpicked(t, section, c);
        let (o, ou) = (of_section(t, section), of_section(u, section));
        assert(t + seq![x] =~= pairs);
        assert(u + seq![x] =~= u.push(x));
        lemma_of_section_concat(t, seq![x], section);
        lemma_of_section_concat(u, seq![x], section);
        if x.section == section {
            assert(of_section(seq![x], section) =~= seq![x]);
            assert(o + seq![x] =~= o.push(x));
            assert(ou + seq![x] =~= ou.push(x));
            config::law_the_last_value_counts(o, x, section, k);
            config::law_the_last_value_counts(ou, x, section, k);
        } else {
            assert(of_section(seq![x], section) =~= Seq::empty());
            assert(o + Seq::<Setting>::empty() =~= o);
            assert(ou + Seq::<Setting>::empty() =~= ou);
        }
    } else {
        assert(unpicked(pairs, section, c) =~= pairs);
    }
}

/// An alias that was set reads back, and stands alone for its target. No
/// comment is lost.
pub proof fn law_aliases_read_back(s: Seq<char>, alias: Seq<char>, target: Seq<char>, key: Seq<char>)
    requires
        alias.len() > 0,
        rewrite::bare_key(alias),
        rewrite::quotable(target),
    ensures
        config::lookup(
            config::settings_of(rewrite::with_alias(s, alias, target)),
            "aliases"@,
            alias,
        ) == Some(target),
        config::lookup(
            config::settings_of(rewrite::with_alias(s, alias, target)),
            "aliases"@,
            key,
        ) == Some(target) ==> key == alias,
        comments_in(rewrite::with_alias(s, alias, target)) == comments_in(s),
{
    lemma_section_names();
    let section = "aliases"@;
    let c = Choice {
        all: false,
        keys: Seq::empty(),
        values: seq![target],
        spared: seq![alias],
    };
    let w = rewrite::quoted(target);
    lemma_quoted(target);
    let mid = rewrite::with_value(s, section, alias, w);
    law_values_read_back(s, section, alias, w, section, alias);
    assert(c.spared[0] == alias);
    lemma_edited_leaves(mid, section, c, section, alias);
    let added = Seq::<Seq<char>>::empty();
    let new = rewrite::with_alias(s, alias, target);
    if key != alias && config::lookup(config::settings_of(new), section, key) == Some(target) {
        law_edits_stay_in_their_section(mid, section, c, added, section);
        lemma_settled_by_section(pairs_in(new), section);
        lemma_lookup_by_section(config::settled(pairs_in(new)), section, key);
        let o = of_section(pairs_in(new), section);
        lemma_lookup_comes_from(o, section, key);
        let i = choose|i: int|
            0 <= i < o.len() && (#[trigger] o[i]).section == section && o[i].key == key
                && o[i].value == target;
        lemma_unpicked_here(pairs_in(mid), section, c);
        let rest = of_section(unpicked(pairs_in(mid), section, c), section);
        assert(o =~= rest);
        assert(c.values[0] == target);
        assert(!c.picks(rest[i].key, rest[i].value));
    }
}

/// A value that reads back was written.
proof fn lemma_lookup_comes_from(pairs: Seq<Setting>, section: Seq<char>, key: Seq<char>)
    ensures
        config::lookup(config::settled(pairs), section, key) matches Some(v) ==> exists|i: int|
            0 <= i < pairs.len() && (#[trigger] pairs[i]).section == section && pairs[i].key == key
                && pairs[i].value == v,
    decreases pairs.len(),
{
    if pairs.len() > 0 {
        let t = pairs.drop_last();
        let x = pairs[pairs.len() - 1];
        lemma_lookup_comes_from(t, section, key);
        config::law_the_last_value_counts(t, x, section, key);
        assert(t.push(x) =~= pairs);
        if let Some(v) = config::lookup(config::settled(pairs), section, key) {
            if !(x.section == section && x.key == key) {
                let i = choose|i: int|
                    0 <= i < t.len() && (#[trigger] t[i]).section == section && t[i].key == key
                        && t[i].value == v;
                assert(pairs[i] == t[i]);
            }
        }
    }
}

/// After its alias is taken back, nothing is an alias for the target. No
/// comment is lost.
pub proof fn law_removed_aliases_are_gone(s: Seq<char>, target: Seq<char>, key: Seq<char>)
    ensures
        config::lookup(
            config::settings_of(rewrite::without_alias(s, target)),
            "aliases"@,
            key,
        ) != Some(target),
        comments_in(rewrite::without_alias(s, target)) == comments_in(s),
{
    lemma_section_names();
    let section = "aliases"@;
    let c = Choice {
        all: false,
        keys: Seq::empty(),
        values: seq![target],
        spared: Seq::empty(),
    };
    let added = Seq::<Seq<char>>::empty();
    let new = rewrite::without_alias(s, target);
    law_edits_keep_every_other_line(s, section, c, added);
    law_edits_stay_in_their_section(s, section, c, added, section);
    lemma_settled_by_section(pairs_in(new), section);
    lemma_lookup_by_section(config::settled(pairs_in(new)), section, key);
    let o = of_section(pairs_in(new), section);
    let rest = of_section(unpicked(pairs_in(s), section, c), section);
    assert(o =~= rest);
    lemma_unpicked_here(pairs_in(s), section, c);
    if config::lookup(config::settings_of(new), section, key) == Some(target) {
        lemma_lookup_comes_from(o, section, key);
        let i = choose|i: int|
            0 <= i < o.len() && (#[trigger] o[i]).section == section && o[i].key == key
                && o[i].value == target;
        assert(c.values[0] == target);
        assert(!c.picks(rest[i].key, rest[i].value));
    }
}

/// A flag that was set reads back, whatever its default. No other setting
/// changes, and no comment is lost.
pub proof fn law_flags_read_back(
    s: Seq<char>,
    key: Seq<char>,
    on: bool,
    default: bool,
    sec: Seq<char>,
    k: Seq<char>,
)
    requires
        key.len() > 0,
        rewrite::bare_key(key),
    ensures
        ({
            let new = rewrite::with_flag(s, key, on);
            &&& config::flag_of(config::settings_of(new), "general"@, key, default) == on
            &&& sec != "general"@ || k != key ==> config::lookup(config::settings_of(new), sec, k)
                == config::lookup(config::settings_of(s), sec, k)
            &&& comments_in(new) == comments_in(s)
        }),
{
    lemma_section_names();
    let w = rewrite::flag_word(on);
    lemma_flag_word(on);
    law_values_read_back(s, "general"@, key, w, "general"@, key);
    law_values_read_back(s, "general"@, key, w, sec, k);
}

/// A quicklink that was written reads back. No comment is lost.
pub proof fn law_quicklinks_read_back(
    s: Seq<char>,
    slug: Seq<char>,
    name: Seq<char>,
    link: Seq<char>,
    open_with: Seq<char>,
)
    requires
        rewrite::bare_key(slug),
        rewrite::quotable(name),
        rewrite::quotable(link),
        rewrite::quotable(open_with),
    ensures
        ({
            let new = rewrite::with_quicklink(s, slug, name, link, open_with);
            let settings = config::settings_of(new);
            let section = rewrite::quicklink_section(slug);
            &&& config::lookup(settings, section, "name"@) == Some(name)
            &&& config::lookup(settings, section, "link"@) == Some(link)
            &&& config::lookup(settings, section, "open_with"@) == if open_with.len() == 0 {
                None::<Seq<char>>
            } else {
                Some(open_with)
            }
            &&& comments_in(new) == comments_in(s)
        }),
{
    lemma_section_names();
    let section = rewrite::quicklink_section(slug);
    let (kn, kl, ko) = ("name"@, "link"@, "open_with"@);
    let pre = "quicklinks."@;
    assert forall|i: int| 0 <= i < section.len() implies rewrite::key_char(
        #[trigger] section[i],
    ) by {
        if i < pre.len() {
            assert(section[i] == pre[i]);
        } else {
            assert(section[i] == slug[i - pre.len()]);
        }
    }
    lemma_quoted(name);
    lemma_quoted(link);
    lemma_quoted(open_with);
    let a = rewrite::with_program(s, section, open_with);
    let b = rewrite::with_value(a, section, kl, rewrite::quoted(link));
    if open_with.len() == 0 {
        let c = Choice {
            all: false,
            keys: seq![ko],
            values: Seq::empty(),
            spared: Seq::empty(),
        };
        let added = Seq::<Seq<char>>::empty();
        assert(c.keys[0] == ko);
        lemma_edited_lookup(s, section, c, added, ko);
        law_edits_keep_every_other_line(s, section, c, added);
        assert(config::pairs_of(section, added) =~= Seq::empty());
    } else {
        law_values_read_back(s, section, ko, rewrite::quoted(open_with), section, ko);
    }
    law_values_read_back(a, section, kl, rewrite::quoted(link), section, kl);
    law_values_read_back(a, section, kl, rewrite::quoted(link), section, ko);
    law_values_read_back(b, section, kn, rewrite::quoted(name), section, kn);
    law_values_read_back(b, section, kn, rewrite::quoted(name), section, kl);
    law_values_read_back(b, section, kn, rewrite::quoted(name), section, ko);
}

/// Taking lines out of a section with its heading leaves the settings of the
/// others as they were, and none of its own.
proof fn lemma_without_section(start: Seq<char>, lines: Seq<Seq<char>>, section: Seq<char>)
    requires
        start != section,
    ensures
        ({
            let w = rewrite::without_section(start, lines, section);
            let now = config::section_after(start, lines);
            &&& config::section_after(start, w) != section
            &&& now != section ==> config::section_after(start, w) == now
            &&& config::pairs_of(start, w) == unpicked(
                config::pairs_of(start, lines),
                section,
                rewrite::every(),
            )
            &&& comments_of(w) == comments_of(lines)
        }),
    decreases lines.len(),
{
    if lines.len() > 0 {
        let t = lines.drop_last();
        lemma_without_section(start, t, section);
        let w = rewrite::without_section(start, t, section);
        let line = lines.last();
        assert(w.push(line).drop_last() =~= w);
        let left = rewrite::remains(line);
        let now = config::section_after(start, w);
        lemma_remains(now, line, section);
        lemma_section_concat(start, w, left);
        lemma_pairs_concat(start, w, left);
        lemma_comments_concat(w, left);
        assert(config::pairs_of(start, w + left) =~= config::pairs_of(start, w));
        if let Line::Pair(key, value) = config::line_of(line) {
            let x = Setting { section: config::section_after(start, t), key, value };
            lemma_unpicked_push(config::pairs_of(start, t), x, section, rewrite::every());
        }
    }
}

proof fn lemma_without_section_lines(start: Seq<char>, lines: Seq<Seq<char>>, section: Seq<char>)
    requires
        single_lines(lines),
    ensures
        single_lines(rewrite::without_section(start, lines, section)),
        rewrite::without_section(start, lines, section) == without_headings(
            around(start, lines, section),
            section,
        ),
    decreases lines.len(),
{
    if lines.len() > 0 {
        let t = lines.drop_last();
        assert forall|i: int| 0 <= i < t.len() implies !(#[trigger] t[i]).contains('\n') by {
            assert(t[i] == lines[i]);
        }
        lemma_without_section_lines(start, t, section);
        let w = rewrite::without_section(start, t, section);
        let r = rewrite::without_section(start, lines, section);
        assert forall|i: int| 0 <= i < r.len() implies !(#[trigger] r[i]).contains('\n') by {
            lemma_remains(start, lines[lines.len() - 1], section);
            if i < w.len() {
                assert(r[i] == w[i]);
            } else if r.len() == w.len() + 1 && r[i] == lines[lines.len() - 1] {
            } else {
                assert(r[i] == rewrite::remains(lines[lines.len() - 1])[i - w.len()]);
            }
        }
        let a = around(start, t, section);
        assert(a.push(lines.last()).drop_last() =~= a);
        let left = rewrite::remains(lines.last());
        lemma_remains(start, lines.last(), section);
        if left.len() == 1 {
            assert(a + left =~= a.push(left[0]));
            assert(a.push(left[0]).drop_last() =~= a);
            assert(without_headings(a, section) + left =~= without_headings(a, section).push(
                left[0],
            ));
        } else {
            assert(a + left =~= a);
            assert(without_headings(a, section) + left =~= without_headings(a, section));
        }
    }
}

/// Lines without the headings of a section, but for the comments behind them.
pub open spec fn without_headings(lines: Seq<Seq<char>>, section: Seq<char>) -> Seq<Seq<char>>
    decreases lines.len(),
{
    if lines.len() == 0 {
        lines
    } else if config::line_of(lines.last()) == Line::Header(section) {
        without_headings(lines.drop_last(), section) + rewrite::remains(lines.last())
    } else {
        without_headings(lines.drop_last(), section).push(lines.last())
    }
}

/// A section that was taken out has no settings left, those of every other
/// section stay in order, and every other line stays byte for byte, as does
/// every comment.
pub proof fn law_removed_sections_are_gone(s: Seq<char>, section: Seq<char>, other: Seq<char>)
    requires
        section.len() > 0,
    ensures
        ({
            let new = rewrite::removed(s, section);
            let lines = pieces::split_on(s, '\n');
            &&& of_section(pairs_in(new), section).len() == 0
            &&& other != section ==> of_section(pairs_in(new), other) == of_section(
                pairs_in(s),
                other,
            )
            &&& new == pieces::joined(
                without_headings(around(Seq::empty(), lines, section), section),
                '\n',
            )
            &&& comments_in(new) == comments_in(s)
        }),
{
    let e = Seq::<char>::empty();
    let lines = pieces::split_on(s, '\n');
    pieces::law_split_then_join(s, '\n');
    assert(e != section);
    lemma_without_section(e, lines, section);
    lemma_without_section_lines(e, lines, section);
    let w = rewrite::without_section(e, lines, section);
    let new = rewrite::removed(s, section);
    if w.len() > 0 {
        pieces::law_join_then_split(w, '\n');
    } else {
        assert(new =~= Seq::empty());
        let blank = Seq::<char>::empty();
        lemma_blank(blank);
        assert(pieces::split_on(new, '\n') =~= seq![blank]);
        assert(seq![blank].drop_last() =~= Seq::empty());
        reveal_with_fuel(config::pairs_of, 2);
        reveal_with_fuel(comments_of, 2);
        assert(comments_of(seq![blank]) =~= Seq::empty());
        assert(config::pairs_of(e, w) =~= Seq::empty());
    }
    let p = pairs_in(s);
    lemma_unpicked_here(p, section, rewrite::every());
    let rest = of_section(unpicked(p, section, rewrite::every()), section);
    if rest.len() > 0 {
        assert(!rewrite::every().picks(rest[0].key, rest[0].value));
    }
    if other != section {
        lemma_unpicked_elsewhere(p, section, rewrite::every(), other);
    }
}

/// Toggling whether the launcher starts at login takes hold, and toggling
/// twice leaves it as it was.
pub proof fn law_startup_toggles(s: Seq<char>)
    ensures
        ({
            let key = "start_on_startup"@;
            let once = rewrite::with_startup_toggled(s);
            let twice = rewrite::with_startup_toggled(once);
            let on = |t: Seq<char>|
                config::flag_of(config::settings_of(t), "general"@, key, true);
            &&& on(once) == !on(s)
            &&& on(twice) == on(s)
        }),
{
    let key = "start_on_startup"@;
    reveal_strlit("start_on_startup");
    assert(rewrite::bare_key(key));
    let once = rewrite::with_startup_toggled(s);
    let on = config::flag_of(config::settings_of(s), "general"@, key, true);
    law_flags_read_back(s, key, !on, true, key, key);
    law_flags_read_back(once, key, on, true, key, key);
}

/// A source folder that was added is among the sources, after those that were
/// there, and is not added again.
pub proof fn law_added_sources_read_back(s: Seq<char>, path: Seq<char>)
    requires
        rewrite::with_source(s, path) is Some,
        rewrite::quotable(path),
        forall|i: int|
            0 <= i < config::values_in(config::settings_of(s), "sources"@).len()
                ==> rewrite::quotable(
                #[trigger] config::values_in(config::settings_of(s), "sources"@)[i],
            ),
    ensures
        ({
            let new = rewrite::with_source(s, path)->0;
            &&& config::values_in(config::settings_of(new), "sources"@) == config::values_in(
                config::settings_of(s),
                "sources"@,
            ).push(path)
            &&& rewrite::with_source(new, path) is None
        }),
{
    reveal_strlit("sources");
    assert(section_name("sources"@));
    let sources = config::values_in(config::settings_of(s), "sources"@);
    let more = sources.push(path);
    assert forall|i: int| 0 <= i < more.len() implies rewrite::quotable(#[trigger] more[i]) by {
        if i < sources.len() {
            assert(more[i] == sources[i]);
        }
    }
    law_lists_read_back(s, "sources"@, more);
    assert(text::same_ignoring_case(more[more.len() - 1], path));
}

// ---- sections in which every key is written once ---------------------------------------

/// Every key of the section is written once.
pub open spec fn written_once(s: Seq<char>, section: Seq<char>) -> bool {
    config::unique(of_section(pairs_in(s), section))
}

spec fn entry() -> spec_fn(Setting) -> (Seq<char>, Seq<char>) {
    |x: Setting| (x.key, x.value)
}

proof fn lemma_entries_of_section(settings: Seq<Setting>, section: Seq<char>)
    ensures
        config::entries_in(settings, section) == of_section(settings, section).map_values(entry()),
    decreases settings.len(),
{
    reveal_with_fuel(of_section, 2);
    let f = entry();
    if settings.len() == 0 {
        assert(of_section(settings, section).map_values(f) =~= Seq::empty());
    } else {
        let t = settings.drop_last();
        let x = settings.last();
        lemma_entries_of_section(t, section);
        assert(settings =~= t + seq![x]);
        lemma_of_section_concat(t, seq![x], section);
        let o = of_section(t, section);
        if x.section == section {
            assert(of_section(seq![x], section) =~= seq![x]);
            assert((o + seq![x]).map_values(f) =~= o.map_values(f).push((x.key, x.value)));
        } else {
            assert(of_section(seq![x], section) =~= Seq::empty());
            assert(o + Seq::<Setting>::empty() =~= o);
        }
    }
}

/// Where every key is written once, what reads back is what is written.
proof fn lemma_entries_as_written(s: Seq<char>, section: Seq<char>)
    requires
        written_once(s, section),
    ensures
        config::entries_in(config::settings_of(s), section) == of_section(
            pairs_in(s),
            section,
        ).map_values(entry()),
{
    lemma_settled_by_section(pairs_in(s), section);
    lemma_settled_unique(of_section(pairs_in(s), section));
    lemma_entries_of_section(config::settings_of(s), section);
}

proof fn lemma_left_in_section(pairs: Seq<Setting>, section: Seq<char>, c: Choice)
    ensures
        of_section(unpicked(pairs, section, c), section).map_values(entry()) == of_section(
            pairs,
            section,
        ).map_values(entry()).filter(|e: (Seq<char>, Seq<char>)| !c.picks(e.0, e.1)),
    decreases pairs.len(),
{
    reveal_with_fuel(of_section, 2);
    reveal(Seq::filter);
    let f = entry();
    let keep = |e: (Seq<char>, Seq<char>)| !c.picks(e.0, e.1);
    if pairs.len() == 0 {
        assert(of_section(pairs, section).map_values(f) =~= Seq::empty());
        assert(unpicked(pairs, section, c) =~= pairs);
    } else {
        let t = pairs.drop_last();
        let x = pairs.last();
        lemma_left_in_section(t, section, c);
        lemma_unpicked_push(t, x, section, c);
        assert(t.push(x) =~= pairs);
        assert(t + seq![x] =~= pairs);
        let u = unpicked(t, section, c);
        assert(u + seq![x] =~= u.push(x));
        lemma_of_section_concat(t, seq![x], section);
        lemma_of_section_concat(u, seq![x], section);
        let (o, ou) = (of_section(t, section), of_section(u, section));
        if x.section == section {
            assert(of_section(seq![x], section) =~= seq![x]);
            assert((o + seq![x]).map_values(f) =~= o.map_values(f).push((x.key, x.value)));
            assert((ou + seq![x]).map_values(f) =~= ou.map_values(f).push((x.key, x.value)));
            let all = o.map_values(f).push((x.key, x.value));
            assert(all.drop_last() =~= o.map_values(f));
        } else {
            assert(of_section(seq![x], section) =~= Seq::empty());
            assert(o + Seq::<Setting>::empty() =~= o);
            assert(ou + Seq::<Setting>::empty() =~= ou);
        }
    }
}

proof fn lemma_left_is_written_once(pairs: Seq<Setting>, section: Seq<char>, c: Choice)
    requires
        config::unique(of_section(pairs, section)),
    ensures
        config::unique(of_section(unpicked(pairs, section, c), section)),
        forall|x: Setting| #[trigger]
            of_section(unpicked(pairs, section, c), section).contains(x) ==> of_section(
                pairs,
                section,
            ).contains(x),
    decreases pairs.len(),
{
    if pairs.len() > 0 {
        let t = pairs.drop_first();
        let o = of_section(t, section);
        let all = of_section(pairs, section);
        let shift: int = if pairs[0].section == section {
            1
        } else {
            0
        };
        assert forall|i: int| 0 <= i < o.len() implies #[trigger] o[i] == all[i + shift] by {}
        assert forall|i: int, j: int| 0 <= i < j < o.len() implies !config::same_key(
            #[trigger] o[i],
            #[trigger] o[j],
        ) by {
            assert(!config::same_key(all[i + shift], all[j + shift]));
        }
        lemma_left_is_written_once(t, section, c);
        let u = unpicked(t, section, c);
        let ou = of_section(u, section);
        let now = of_section(unpicked(pairs, section, c), section);
        assert((seq![pairs[0]] + u).drop_first() =~= u);
        assert((seq![pairs[0]] + u)[0] == pairs[0]);
        assert forall|x: Setting| #[trigger] now.contains(x) implies all.contains(x) by {
            let i = choose|i: int| 0 <= i < now.len() && now[i] == x;
            if now.len() == ou.len() {
                assert(now == ou);
            } else if i > 0 {
                assert(ou[i - 1] == x);
            }
            if now.len() == ou.len() || i > 0 {
                assert(ou.contains(x));
                assert(o.contains(x));
                let k = choose|k: int| 0 <= k < o.len() && o[k] == x;
                assert(all[k + shift] == x);
            } else {
                assert(all[0] == x);
            }
        }
        assert forall|i: int, j: int| 0 <= i < j < now.len() implies !config::same_key(
            #[trigger] now[i],
            #[trigger] now[j],
        ) by {
            if now.len() == ou.len() {
                assert(now == ou);
                assert(!config::same_key(ou[i], ou[j]));
            } else if i > 0 {
                assert(now[i] == ou[i - 1] && now[j] == ou[j - 1]);
                assert(!config::same_key(ou[i - 1], ou[j - 1]));
            } else {
                assert(now[j] == ou[j - 1]);
                assert(ou.contains(now[j]));
                assert(o.contains(now[j]));
                let k = choose|k: int| 0 <= k < o.len() && o[k] == now[j];
                assert(all[k + 1] == now[j]);
                assert(all[0] == now[0]);
                assert(!config::same_key(all[0], all[k + 1]));
            }
        }
    }
}

/// Taking back the aliases of a target leaves the others as they were and in
/// order, where every alias is written once.
pub proof fn law_other_aliases_stay(s: Seq<char>, target: Seq<char>)
    requires
        written_once(s, "aliases"@),
    ensures
        config::entries_in(config::settings_of(rewrite::without_alias(s, target)), "aliases"@)
            == config::entries_in(config::settings_of(s), "aliases"@).filter(
            |e: (Seq<char>, Seq<char>)| e.1 != target,
        ),
        written_once(rewrite::without_alias(s, target), "aliases"@),
{
    lemma_section_names();
    let section = "aliases"@;
    let c = Choice {
        all: false,
        keys: Seq::empty(),
        values: seq![target],
        spared: Seq::empty(),
    };
    let added = Seq::<Seq<char>>::empty();
    let new = rewrite::without_alias(s, target);
    let p = pairs_in(s);
    law_edits_stay_in_their_section(s, section, c, added, section);
    let rest = of_section(unpicked(p, section, c), section);
    assert(of_section(pairs_in(new), section) =~= rest);
    lemma_left_is_written_once(p, section, c);
    lemma_left_in_section(p, section, c);
    lemma_entries_as_written(s, section);
    lemma_entries_as_written(new, section);
    assert forall|v: Seq<char>| #[trigger] c.values.contains(v) <==> v == target by {
        assert(c.values[0] == target);
    }
    assert((|e: (Seq<char>, Seq<char>)| !c.picks(e.0, e.1)) =~= (|e: (Seq<char>, Seq<char>)|
        e.1 != target));
}

proof fn lemma_of_section_revalued(
    pairs: Seq<Setting>,
    section: Seq<char>,
    key: Seq<char>,
    value: Seq<char>,
)
    ensures
        of_section(revalued(pairs, section, key, value), section) == revalued(
            of_section(pairs, section),
            section,
            key,
            value,
        ),
    decreases pairs.len(),
{
    let r = revalued(pairs, section, key, value);
    if pairs.len() == 0 {
        assert(r =~= pairs);
        assert(of_section(r, section) =~= revalued(of_section(pairs, section), section, key, value));
    } else {
        lemma_of_section_revalued(pairs.drop_first(), section, key, value);
        assert(r.drop_first() =~= revalued(pairs.drop_first(), section, key, value));
        assert(r[0].section == pairs[0].section);
        assert(of_section(r, section) =~= revalued(of_section(pairs, section), section, key, value));
    }
}

/// An alias that was set stands beside the others: those for the same target
/// and the one of that name are gone, the rest are there, where every alias is
/// written once.
pub proof fn law_set_aliases_stand_beside_the_others(
    s: Seq<char>,
    alias: Seq<char>,
    target: Seq<char>,
    e: (Seq<char>, Seq<char>),
)
    requires
        alias.len() > 0,
        rewrite::bare_key(alias),
        rewrite::quotable(target),
        written_once(s, "aliases"@),
    ensures
        config::entries_in(
            config::settings_of(rewrite::with_alias(s, alias, target)),
            "aliases"@,
        ).contains(e) <==> e == (alias, target) || e.0 != alias && e.1 != target
            && config::entries_in(config::settings_of(s), "aliases"@).contains(e),
        written_once(rewrite::with_alias(s, alias, target), "aliases"@),
{
    lemma_section_names();
    let section = "aliases"@;
    let c = Choice {
        all: false,
        keys: Seq::empty(),
        values: seq![target],
        spared: seq![alias],
    };
    let w = rewrite::quoted(target);
    lemma_quoted(target);
    let mid = rewrite::with_value(s, section, alias, w);
    lemma_value_pairs(s, section, alias, w);
    let p = pairs_in(s);
    let o = of_section(p, section);
    let m = of_section(pairs_in(mid), section);
    let x = Setting { section, key: alias, value: target };
    lemma_of_section_from(p, section);
    lemma_sections_are_own(p, section);
    if rewrite::is_set(Seq::empty(), pieces::split_on(s, '\n'), section, alias) {
        lemma_of_section_revalued(p, section, alias, target);
        let i = choose|i: int|
            0 <= i < p.len() && (#[trigger] p[i]).section == section && p[i].key == alias;
        lemma_section_has(p, section, i);
        let k = choose|k: int| 0 <= k < o.len() && o[k] == p[i];
        assert(m[k] == x);
        assert forall|a: int, b: int| 0 <= a < b < m.len() implies !config::same_key(
            #[trigger] m[a],
            #[trigger] m[b],
        ) by {
            assert(config::same_key(m[a], o[a]) && config::same_key(m[b], o[b]));
            assert(!config::same_key(o[a], o[b]));
        }
        assert forall|y: Setting| #[trigger] m.contains(y) <==> y == x || y.key != alias
            && o.contains(y) by {
            if m.contains(y) {
                let j = choose|j: int| 0 <= j < m.len() && m[j] == y;
                assert(o[j].section == section);
                if o[j].key != alias {
                    assert(o[j] == y);
                }
            }
            if y.key != alias && o.contains(y) {
                let j = choose|j: int| 0 <= j < o.len() && o[j] == y;
                assert(m[j] == y);
            }
        }
    } else {
        assert(m == seq![x] + o);
        assert forall|j: int| 0 <= j < o.len() implies (#[trigger] o[j]).key != alias by {
            assert(p.contains(o[j]));
            let i = choose|i: int| 0 <= i < p.len() && p[i] == o[j];
            assert(!(p[i].section == section && p[i].key == alias));
        }
        assert forall|a: int, b: int| 0 <= a < b < m.len() implies !config::same_key(
            #[trigger] m[a],
            #[trigger] m[b],
        ) by {
            assert(m[b] == o[b - 1]);
            if a > 0 {
                assert(m[a] == o[a - 1]);
                assert(!config::same_key(o[a - 1], o[b - 1]));
            }
        }
        assert forall|y: Setting| #[trigger] m.contains(y) <==> y == x || y.key != alias
            && o.contains(y) by {
            if m.contains(y) {
                let j = choose|j: int| 0 <= j < m.len() && m[j] == y;
                if j > 0 {
                    assert(o[j - 1] == y);
                }
            }
            if y == x {
                assert(m[0] == y);
            }
            if o.contains(y) {
                let j = choose|j: int| 0 <= j < o.len() && o[j] == y;
                assert(m[j + 1] == y);
            }
        }
    }
    let new = rewrite::with_alias(s, alias, target);
    law_edits_stay_in_their_section(mid, section, c, Seq::empty(), section);
    let rest = of_section(unpicked(pairs_in(mid), section, c), section);
    assert(of_section(pairs_in(new), section) =~= rest);
    lemma_left_is_written_once(pairs_in(mid), section, c);
    lemma_left_in_section(pairs_in(mid), section, c);
    lemma_entries_as_written(s, section);
    lemma_entries_as_written(new, section);
    lemma_entries_as_written(mid, section);
    let keep = |e: (Seq<char>, Seq<char>)| !c.picks(e.0, e.1);
    let me = m.map_values(entry());
    let oe = o.map_values(entry());
    assert(c.values.contains(e.1) <==> e.1 == target) by {
        assert(c.values[0] == target);
    }
    assert(c.spared.contains(e.0) <==> e.0 == alias) by {
        assert(c.spared[0] == alias);
    }
    broadcast use vstd::seq_lib::group_filter_ensures;

    let y = Setting { section, key: e.0, value: e.1 };
    lemma_sections_are_own(pairs_in(mid), section);
    assert(me.contains(e) <==> m.contains(y)) by {
        if me.contains(e) {
            let j = choose|j: int| 0 <= j < me.len() && me[j] == e;
            assert(m[j] == y);
        }
        if m.contains(y) {
            let j = choose|j: int| 0 <= j < m.len() && m[j] == y;
            assert(me[j] == e);
        }
    }
    assert(oe.contains(e) <==> o.contains(y)) by {
        if oe.contains(e) {
            let j = choose|j: int| 0 <= j < oe.len() && oe[j] == e;
            assert(o[j] == y);
        }
        if o.contains(y) {
            let j = choose|j: int| 0 <= j < o.len() && o[j] == y;
            assert(oe[j] == e);
        }
    }
    lemma_filter_has(me, keep, e);
}

pub proof fn lemma_filter_has<A>(s: Seq<A>, keep: spec_fn(A) -> bool, x: A)
    ensures
        s.filter(keep).contains(x) <==> s.contains(x) && keep(x),
    decreases s.len(),
{
    reveal(Seq::filter);
    if s.len() > 0 {
        let t = s.drop_last();
        lemma_filter_has(t, keep, x);
        let (f, ft) = (s.filter(keep), t.filter(keep));
        if s.contains(x) {
            let i = choose|i: int| 0 <= i < s.len() && s[i] == x;
            if i < t.len() {
                assert(t[i] == x);
            }
        }
        if t.contains(x) {
            let i = choose|i: int| 0 <= i < t.len() && t[i] == x;
            assert(s[i] == x);
        }
        if keep(s.last()) {
            assert(f == ft.push(s.last()));
            if ft.contains(x) {
                let i = choose|i: int| 0 <= i < ft.len() && ft[i] == x;
                assert(f[i] == x);
            }
            if x == s.last() {
                assert(f[ft.len() as int] == x);
                assert(s[t.len() as int] == x);
            }
            if f.contains(x) {
                let i = choose|i: int| 0 <= i < f.len() && f[i] == x;
                if i < ft.len() {
                    assert(ft[i] == x);
                }
            }
        }
    }
}

proof fn lemma_sections_are_own(pairs: Seq<Setting>, section: Seq<char>)
    ensures
        forall|i: int|
            0 <= i < of_section(pairs, section).len() ==> (#[trigger] of_section(
                pairs,
                section,
            )[i]).section == section,
    decreases pairs.len(),
{
    if pairs.len() > 0 {
        let t = pairs.drop_first();
        lemma_sections_are_own(t, section);
        let (o, ot) = (of_section(pairs, section), of_section(t, section));
        assert forall|i: int| 0 <= i < o.len() implies (#[trigger] o[i]).section == section by {
            if pairs[0].section == section {
                if i > 0 {
                    assert(o[i] == ot[i - 1]);
                }
            } else {
                assert(o[i] == ot[i]);
            }
        }
    }
}

proof fn lemma_section_has(pairs: Seq<Setting>, section: Seq<char>, i: int)
    requires
        0 <= i < pairs.len(),
        pairs[i].section == section,
    ensures
        of_section(pairs, section).contains(pairs[i]),
    decreases pairs.len(),
{
    let t = pairs.drop_first();
    let (o, ot) = (of_section(pairs, section), of_section(t, section));
    if i == 0 {
        assert(o[0] == pairs[0]);
    } else {
        lemma_section_has(t, section, i - 1);
        let k = choose|k: int| 0 <= k < ot.len() && ot[k] == t[i - 1];
        if pairs[0].section == section {
            assert(o[k + 1] == pairs[i]);
        } else {
            assert(o[k] == pairs[i]);
        }
    }
}

/// A source folder is added exactly if it is none already, whatever the case it
/// is written in.
pub proof fn law_sources_are_added_once(s: Seq<char>, path: Seq<char>)
    ensures
        rewrite::with_source(s, path) is None <==> exists|i: int|
            0 <= i < config::values_in(config::settings_of(s), "sources"@).len()
                && text::same_ignoring_case(
                #[trigger] config::values_in(config::settings_of(s), "sources"@)[i],
                path,
            ),
{
}

// ---- how it is written -------------------------------------------------------------------------

/// A setting is a key, an equals sign with a space on either side, and the
/// value; a value stands between single quotes, or between double ones where it
/// has an apostrophe in it; a section is headed by its name in brackets.
pub proof fn law_how_settings_are_written(key: Seq<char>, value: Seq<char>, section: Seq<char>)
    ensures
        rewrite::pair_line(key, value) == key + seq![' ', '=', ' '] + value,
        !value.contains('\'') ==> rewrite::quoted(value) == seq!['\''] + value + seq!['\''],
        value.contains('\'') && !value.contains('"') ==> rewrite::quoted(value) == seq!['"'] + value
            + seq!['"'],
        rewrite::heading(section) == seq!['['] + section + seq![']'],
        rewrite::flag_word(true) == "true"@,
        rewrite::flag_word(false) == "false"@,
{
}

/// The values of a list are numbered, from one on, and written in order.
pub proof fn law_lists_are_numbered_from_one(values: Seq<Seq<char>>, i: int)
    requires
        0 <= i < values.len(),
    ensures
        rewrite::list_lines(values).len() == values.len(),
        exists|number: Seq<char>|
            numbers::decimal(number) == Some((i + 1) as nat) && rewrite::list_lines(values)[i]
                == #[trigger] rewrite::pair_line(number, rewrite::quoted(values[i])),
{
    numbers::lemma_shown((i + 1) as nat);
    let number = numbers::shown((i + 1) as nat);
    assert(rewrite::list_lines(values)[i] == rewrite::pair_line(
        number,
        rewrite::quoted(values[i]),
    ));
}

/// New settings stand right below the first heading of their section. Where
/// there is none, the heading comes behind the last line, and the settings
/// below it.
pub proof fn law_where_settings_are_added(
    lines: Seq<Seq<char>>,
    section: Seq<char>,
    added: Seq<Seq<char>>,
    h: int,
)
    requires
        0 <= h <= lines.len(),
        h < lines.len() ==> config::line_of(lines[h]) == Line::Header(section),
        forall|j: int| 0 <= j < h ==> config::line_of(#[trigger] lines[j]) != Line::Header(section),
    ensures
        h < lines.len() ==> rewrite::placed(lines, section, added) == lines.take(h + 1) + added
            + lines.skip(h + 1),
        h == lines.len() && added.len() == 0 ==> rewrite::placed(lines, section, added) == lines,
        h == lines.len() && added.len() > 0 ==> rewrite::placed(lines, section, added) == (
        if lines.len() > 0 && lines.last().len() == 0 {
            lines.drop_last()
        } else {
            lines
        }).push(seq!['['] + section + seq![']']) + added.push(Seq::empty()),
{
    pieces::lemma_first_where_is(
        lines,
        |l: Seq<char>| config::line_of(l) == Line::Header(section),
        h,
    );
}

} // verus!
