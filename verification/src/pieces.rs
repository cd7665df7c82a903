//! Taking texts apart and putting them together.
use vstd::prelude::*;
use vstd::string::*;

use crate::text::{slice_of, string_of};

verus! {

/// The texts a list of character vectors holds.
pub open spec fn texts(v: Seq<Vec<char>>) -> Seq<Seq<char>> {
    v.map_values(|x: Vec<char>| x@)
}

/// The texts a list of strings holds.
pub open spec fn strings(v: Seq<String>) -> Seq<Seq<char>> {
    v.map_values(|x: String| x@)
}

// ---- splitting --------------------------------------------------------------------

/// The pieces of `s` between one `c` and the next.
pub open spec fn split_on(s: Seq<char>, c: char) -> Seq<Seq<char>>
    decreases s.len(),
{
    if s.len() == 0 {
        seq![Seq::empty()]
    } else {
        let before = split_on(s.drop_last(), c);
        if s.last() == c {
            before.push(Seq::empty())
        } else {
            before.drop_last().push(before.last().push(s.last()))
        }
    }
}

/// Pieces put together with `c` between them.
pub open spec fn joined(p: Seq<Seq<char>>, c: char) -> Seq<char>
    decreases p.len(),
{
    if p.len() == 0 {
        Seq::empty()
    } else if p.len() == 1 {
        p[0]
    } else {
        joined(p.drop_last(), c).push(c) + p.last()
    }
}

/// Splitting loses nothing: the pieces hold no `c`, and put together again
/// they give the text.
pub proof fn law_split_then_join(s: Seq<char>, c: char)
    ensures
        split_on(s, c).len() >= 1,
        joined(split_on(s, c), c) == s,
        forall|i: int|
            0 <= i < split_on(s, c).len() ==> !(#[trigger] split_on(s, c)[i]).contains(c),
    decreases s.len(),
{
    let p = split_on(s, c);
    if s.len() == 0 {
        assert(joined(p, c) =~= s);
    } else {
        let q = split_on(s.drop_last(), c);
        law_split_then_join(s.drop_last(), c);
        if s.last() == c {
            assert(p.drop_last() =~= q);
            assert(joined(p, c) =~= s);
        } else {
            assert(p.drop_last() =~= q.drop_last());
            assert(joined(p, c) =~= joined(q, c).push(s.last()));
            assert(joined(p, c) =~= s);
            assert forall|i: int| 0 <= i < p.len() implies !(#[trigger] p[i]).contains(c) by {
                if i < q.len() - 1 {
                    assert(p[i] == q[i]);
                } else {
                    let last = q[q.len() - 1];
                    assert(p[i] == last.push(s.last()));
                    if p[i].contains(c) {
                        let k = choose|k: int| 0 <= k < p[i].len() && p[i][k] == c;
                        assert(last[k] == c);
                    }
                }
            }
        }
    }
}

/// Joining pieces that hold no `c` loses nothing either.
pub proof fn law_join_then_split(p: Seq<Seq<char>>, c: char)
    requires
        p.len() >= 1,
        forall|i: int| 0 <= i < p.len() ==> !(#[trigger] p[i]).contains(c),
    ensures
        split_on(joined(p, c), c) == p,
    decreases p.len(), joined(p, c).len(),
{
    let last = p.last();
    if p.len() == 1 && last.len() == 0 {
        assert(joined(p, c) =~= Seq::empty());
        assert(p =~= seq![Seq::empty()]);
    } else if last.len() == 0 {
        let q = p.drop_last();
        law_join_then_split(q, c);
        assert(joined(p, c) =~= joined(q, c).push(c));
        assert(joined(p, c).drop_last() =~= joined(q, c));
        assert(last =~= Seq::empty());
        assert(q.push(Seq::empty()) =~= p);
    } else {
        let q = p.update(p.len() - 1, last.drop_last());
        let ch = last.last();
        assert(last.contains(ch));
        assert(q.drop_last() =~= p.drop_last());
        assert(joined(p, c) =~= joined(q, c).push(ch));
        assert(joined(p, c).drop_last() =~= joined(q, c));
        assert forall|i: int| 0 <= i < q.len() implies !(#[trigger] q[i]).contains(c) by {
            if i < p.len() - 1 {
                assert(q[i] == p[i]);
            } else {
                if q[i].contains(c) {
                    let k = choose|k: int| 0 <= k < q[i].len() && q[i][k] == c;
                    assert(last[k] == c);
                }
            }
        }
        law_join_then_split(q, c);
        assert(ch != c);
        assert(q.last().push(ch) =~= last);
        assert(q.drop_last().push(q.last().push(ch)) =~= p);
    }
}

/// The pieces of a text between one `c` and the next.
pub fn split(chars: &[char], c: char) -> (out: Vec<Vec<char>>)
    ensures
        texts(out@) == split_on(chars@, c),
{
    let mut out: Vec<Vec<char>> = Vec::new();
    let mut piece: Vec<char> = Vec::new();
    let mut i: usize = 0;
    assert(texts(out@).push(piece@) =~= split_on(chars@.take(0), c));
    while i < chars.len()
        invariant
            i <= chars@.len(),
            texts(out@).push(piece@) == split_on(chars@.take(i as int), c),
        decreases chars@.len() - i,
    {
        let ghost before = texts(out@).push(piece@);
        proof {
            assert(chars@.take(i + 1).drop_last() == chars@.take(i as int));
            assert(before.last() == piece@);
            assert(before.drop_last() == texts(out@));
        }
        if chars[i] == c {
            out.push(piece);
            piece = Vec::new();
            assert(texts(out@) =~= before);
        } else {
            piece.push(chars[i]);
        }
        assert(texts(out@).push(piece@) =~= split_on(chars@.take(i + 1), c));
        i += 1;
    }
    assert(chars@.take(chars@.len() as int) == chars@);
    let ghost before = texts(out@);
    let ghost last = piece@;
    out.push(piece);
    assert(texts(out@) =~= before.push(last));
    out
}

/// Appends the characters of `more`.
pub fn append(out: &mut Vec<char>, more: &[char])
    ensures
        final(out)@ == old(out)@ + more@,
{
    let mut rest = slice_of(more, 0, more.len());
    assert(rest@ =~= more@);
    out.append(&mut rest);
}

/// Pieces put together with `c` between them.
pub fn join(pieces: &Vec<Vec<char>>, c: char) -> (out: Vec<char>)
    ensures
        out@ == joined(texts(pieces@), c),
{
    let ghost p = texts(pieces@);
    let mut out: Vec<char> = Vec::new();
    let mut i: usize = 0;
    while i < pieces.len()
        invariant
            i <= pieces@.len(),
            p == texts(pieces@),
            out@ == joined(p.take(i as int), c),
        decreases pieces@.len() - i,
    {
        proof {
            assert(p.take(i + 1).drop_last() == p.take(i as int));
            assert(p.take(i + 1).last() == pieces@[i as int]@);
        }
        if i > 0 {
            out.push(c);
        }
        append(&mut out, pieces[i].as_slice());
        assert(out@ =~= joined(p.take(i + 1), c));
        i += 1;
    }
    assert(p.take(p.len() as int) == p);
    out
}

/// A line without the carriage return that ends it.
pub open spec fn without_cr(s: Seq<char>) -> Seq<char> {
    if s.len() > 0 && s.last() == '\r' {
        s.drop_last()
    } else {
        s
    }
}

/// The lines of a text. A line ends in a newline, with or without a carriage
/// return before it; the last one may do without.
pub open spec fn lines_of(s: Seq<char>) -> Seq<Seq<char>> {
    let p = split_on(s, '\n');
    let ended = p.drop_last().map_values(|l: Seq<char>| without_cr(l));
    if p.last().len() == 0 {
        ended
    } else {
        ended.push(p.last())
    }
}

pub fn lines(chars: &[char]) -> (out: Vec<Vec<char>>)
    ensures
        texts(out@) == lines_of(chars@),
{
    let p = split(chars, '\n');
    proof {
        law_split_then_join(chars@, '\n');
    }
    let ghost ps = texts(p@);
    let ghost ended = ps.drop_last().map_values(|l: Seq<char>| without_cr(l));
    let n: usize = p.len();
    let mut out: Vec<Vec<char>> = Vec::new();
    let mut i: usize = 0;
    assert(texts(out@) =~= ended.take(0));
    while i + 1 < n
        invariant
            n == p@.len(),
            n >= 1,
            i < n,
            ps == texts(p@),
            ended == ps.drop_last().map_values(|l: Seq<char>| without_cr(l)),
            texts(out@) == ended.take(i as int),
        decreases n - i,
    {
        let k: usize = p[i].len();
        let end: usize = if k > 0 && p[i][k - 1] == '\r' {
            k - 1
        } else {
            k
        };
        let line = slice_of(p[i].as_slice(), 0, end);
        let ghost before = texts(out@);
        proof {
            assert(ps[i as int] == p@[i as int]@);
            assert(line@ =~= without_cr(ps[i as int]));
            assert(ended.take(i + 1) =~= ended.take(i as int).push(line@));
        }
        out.push(line);
        assert(texts(out@) =~= before.push(line@));
        i += 1;
    }
    assert(ended.take(ended.len() as int) == ended);
    assert(ps.last() == p@[n - 1]@);
    if p[n - 1].len() > 0 {
        let line = slice_of(p[n - 1].as_slice(), 0, p[n - 1].len());
        assert(line@ =~= ps.last());
        let ghost before = texts(out@);
        out.push(line);
        assert(texts(out@) =~= before.push(line@));
    }
    out
}

// ---- searching ----------------------------------------------------------------------

/// Where something first stands in `s` that `sought` holds of; the length of `s`
/// when nothing does.
pub open spec fn first_where<V>(s: Seq<V>, sought: spec_fn(V) -> bool) -> int
    decreases s.len(),
{
    if s.len() == 0 || sought(s[0]) {
        0
    } else {
        1 + first_where(s.drop_first(), sought)
    }
}

pub proof fn lemma_first_where<V>(s: Seq<V>, sought: spec_fn(V) -> bool)
    ensures
        0 <= first_where(s, sought) <= s.len(),
        first_where(s, sought) < s.len() ==> sought(s[first_where(s, sought)]),
        forall|j: int| 0 <= j < first_where(s, sought) ==> !sought(#[trigger] s[j]),
    decreases s.len(),
{
    if s.len() > 0 && !sought(s[0]) {
        let t = s.drop_first();
        lemma_first_where(t, sought);
        let k = first_where(s, sought);
        assert forall|j: int| 0 <= j < k implies !sought(#[trigger] s[j]) by {
            if j > 0 {
                assert(t[j - 1] == s[j]);
            }
        }
        if k < s.len() {
            assert(t[k - 1] == s[k]);
        }
    }
}

/// Whatever first stands somewhere stands where `first_where` says.
pub proof fn lemma_first_where_is<V>(s: Seq<V>, sought: spec_fn(V) -> bool, k: int)
    requires
        0 <= k <= s.len(),
        k < s.len() ==> sought(s[k]),
        forall|j: int| 0 <= j < k ==> !sought(#[trigger] s[j]),
    ensures
        first_where(s, sought) == k,
{
    lemma_first_where(s, sought);
    let f = first_where(s, sought);
    if f < k {
        assert(!sought(s[f]));
    } else if k < f {
        assert(!sought(s[k]));
    }
}

/// Being the character `c`.
pub open spec fn equal_to(c: char) -> spec_fn(char) -> bool {
    |x: char| x == c
}

/// Where `c` first stands in `s`; the length of `s` when it does not.
pub open spec fn first_of(s: Seq<char>, c: char) -> int {
    first_where(s, equal_to(c))
}

pub proof fn lemma_first_of(s: Seq<char>, c: char)
    ensures
        0 <= first_of(s, c) <= s.len(),
        forall|i: int| 0 <= i < first_of(s, c) ==> #[trigger] s[i] != c,
        first_of(s, c) < s.len() ==> s[first_of(s, c)] == c,
        first_of(s, c) < s.len() <==> s.contains(c),
{
    lemma_first_where(s, equal_to(c));
}

pub proof fn lemma_first_of_is(s: Seq<char>, c: char, k: int)
    requires
        0 <= k <= s.len(),
        forall|i: int| 0 <= i < k ==> #[trigger] s[i] != c,
        k < s.len() ==> s[k] == c,
    ensures
        first_of(s, c) == k,
{
    lemma_first_where_is(s, equal_to(c), k);
}

/// Where `c` first stands at or after `from`; the length when it does not.
pub fn find_from(chars: &[char], from: usize, c: char) -> (k: usize)
    requires
        from <= chars@.len(),
    ensures
        from <= k <= chars@.len(),
        k == from + first_of(chars@.skip(from as int), c),
{
    let mut k: usize = from;
    let ghost s = chars@.skip(from as int);
    while k < chars.len() && chars[k] != c
        invariant
            from <= k <= chars@.len(),
            s == chars@.skip(from as int),
            forall|i: int| 0 <= i < k - from ==> #[trigger] s[i] != c,
        decreases chars@.len() - k,
    {
        k += 1;
    }
    proof {
        lemma_first_of_is(s, c, k - from);
    }
    k
}

/// Where `c` first stands; the length when it does not.
pub fn find(chars: &[char], c: char) -> (k: usize)
    ensures
        k <= chars@.len(),
        k == first_of(chars@, c),
{
    assert(chars@.skip(0) =~= chars@);
    find_from(chars, 0, c)
}

/// `t` stands in `s` at `i`.
pub open spec fn stands_at(s: Seq<char>, t: Seq<char>, i: int) -> bool {
    0 <= i <= i + t.len() <= s.len() && s.subrange(i, i + t.len() as int) == t
}

/// `t` stands somewhere in `s`.
pub open spec fn holds(s: Seq<char>, t: Seq<char>) -> bool {
    exists|i: int| #[trigger] stands_at(s, t, i)
}

/// Whether `t` stands in `s` at `i`.
pub fn is_at(s: &[char], t: &[char], i: usize) -> (r: bool)
    requires
        i <= s@.len(),
    ensures
        r == stands_at(s@, t@, i as int),
{
    let n: usize = s.len();
    if t.len() > n - i {
        return false;
    }
    let mut k: usize = 0;
    while k < t.len()
        invariant
            i + t@.len() <= s@.len() == n,
            k <= t@.len(),
            forall|j: int| 0 <= j < k ==> s@[i + j] == #[trigger] t@[j],
        decreases t@.len() - k,
    {
        if s[i + k] != t[k] {
            proof {
                if stands_at(s@, t@, i as int) {
                    assert(s@.subrange(i as int, i + t@.len() as int)[k as int] == t@[k as int]);
                }
            }
            return false;
        }
        k += 1;
    }
    assert(s@.subrange(i as int, i + t@.len() as int) =~= t@);
    true
}

/// Whether `t` stands somewhere in `s`.
pub fn contains(s: &[char], t: &[char]) -> (r: bool)
    ensures
        r == holds(s@, t@),
{
    let mut i: usize = 0;
    while i < s.len()
        invariant
            i <= s@.len(),
            forall|j: int| 0 <= j < i ==> !#[trigger] stands_at(s@, t@, j),
        decreases s@.len() - i,
    {
        if is_at(s, t, i) {
            return true;
        }
        i += 1;
    }
    let r = is_at(s, t, i);
    proof {
        if !r {
            assert forall|j: int| !#[trigger] stands_at(s@, t@, j) by {
                if j == s@.len() {
                }
            }
        }
    }
    r
}

/// `s` with every `t` in it, taken from the left without overlap, replaced by
/// `by`. Nothing is replaced when `t` is empty.
pub open spec fn replaced(s: Seq<char>, t: Seq<char>, by: Seq<char>) -> Seq<char>
    decreases s.len(),
{
    if s.len() == 0 || t.len() == 0 {
        s
    } else if stands_at(s, t, 0) {
        by + replaced(s.skip(t.len() as int), t, by)
    } else {
        seq![s[0]] + replaced(s.drop_first(), t, by)
    }
}

pub fn replace(s: &[char], t: &[char], by: &[char]) -> (out: Vec<char>)
    ensures
        out@ == replaced(s@, t@, by@),
{
    if t.len() == 0 {
        let all = slice_of(s, 0, s.len());
        assert(all@ =~= s@);
        return all;
    }
    let mut out: Vec<char> = Vec::new();
    let mut i: usize = 0;
    assert(s@.skip(0) =~= s@);
    while i < s.len()
        invariant
            i <= s@.len(),
            t@.len() > 0,
            out@ + replaced(s@.skip(i as int), t@, by@) == replaced(s@, t@, by@),
        decreases s@.len() - i,
    {
        let ghost here = s@.skip(i as int);
        let ghost before = out@;
        let hit = is_at(s, t, i);
        proof {
            if i + t@.len() <= s@.len() {
                assert(here.subrange(0, t@.len() as int) =~= s@.subrange(
                    i as int,
                    i + t@.len() as int,
                ));
            }
            assert(hit == stands_at(here, t@, 0));
        }
        if hit {
            append(&mut out, by);
            proof {
                assert(here.skip(t@.len() as int) =~= s@.skip(i + t@.len() as int));
                assert(out@ + replaced(s@.skip(i + t@.len() as int), t@, by@) =~= before + replaced(
                    here,
                    t@,
                    by@,
                ));
            }
            i += t.len();
        } else {
            out.push(s[i]);
            proof {
                assert(here.drop_first() =~= s@.skip(i + 1));
                assert(out@ + replaced(s@.skip(i + 1), t@, by@) =~= before + replaced(
                    here,
                    t@,
                    by@,
                ));
            }
            i += 1;
        }
    }
    assert(out@ + replaced(s@.skip(s@.len() as int), t@, by@) =~= out@);
    out
}

/// Two texts one after the other.
pub fn concat(a: &str, b: &str) -> (r: String)
    ensures
        r@ == a@ + b@,
{
    let mut out = crate::text::chars_of(a);
    let more = crate::text::chars_of(b);
    append(&mut out, more.as_slice());
    string_of(out.as_slice())
}

} // verus!
