//! Putting things in order: texts by their characters, and lists by a number
//! and a text, equals staying as they were.
use vstd::prelude::*;
use vstd::string::*;

use crate::pieces;
use crate::text::chars_of;

verus! {

// ---- texts ------------------------------------------------------------------------

/// `a` comes strictly before `b` in a dictionary whose alphabet is the
/// character codes.
pub open spec fn precedes(a: Seq<char>, b: Seq<char>) -> bool
    decreases a.len(),
{
    if b.len() == 0 {
        false
    } else if a.len() == 0 {
        true
    } else if a[0] != b[0] {
        a[0] < b[0]
    } else {
        precedes(a.drop_first(), b.drop_first())
    }
}

/// The dictionary order is a strict total order.
pub proof fn law_dictionary_order(a: Seq<char>, b: Seq<char>, c: Seq<char>)
    ensures
        !precedes(a, a),
        precedes(a, b) && precedes(b, c) ==> precedes(a, c),
        precedes(a, b) ==> !precedes(b, a),
        precedes(a, b) || precedes(b, a) || a == b,
    decreases a.len() + b.len() + c.len(),
{
    if a.len() > 0 && b.len() > 0 && c.len() > 0 {
        law_dictionary_order(a.drop_first(), b.drop_first(), c.drop_first());
        if a[0] == b[0] && a.drop_first() == b.drop_first() {
            assert(a =~= seq![a[0]] + a.drop_first());
            assert(b =~= seq![b[0]] + b.drop_first());
        }
    } else if a.len() > 0 && b.len() > 0 {
        law_dictionary_order(a.drop_first(), b.drop_first(), c);
        if a[0] == b[0] && a.drop_first() == b.drop_first() {
            assert(a =~= seq![a[0]] + a.drop_first());
            assert(b =~= seq![b[0]] + b.drop_first());
        }
    } else {
        if a.len() > 0 {
            law_dictionary_order(a.drop_first(), b, c);
        }
        if a.len() == 0 && b.len() == 0 {
            assert(a =~= b);
        }
    }
}

pub fn comes_first(a: &str, b: &str) -> (r: bool)
    ensures
        r == precedes(a@, b@),
{
    let x = chars_of(a);
    let y = chars_of(b);
    let mut i: usize = 0;
    assert(x@.skip(0) =~= a@);
    assert(y@.skip(0) =~= b@);
    while i < x.len() && i < y.len() && x[i] == y[i]
        invariant
            i <= x@.len(),
            i <= y@.len(),
            precedes(x@.skip(i as int), y@.skip(i as int)) == precedes(a@, b@),
        decreases x@.len() - i,
    {
        assert(x@.skip(i as int).drop_first() =~= x@.skip(i + 1));
        assert(y@.skip(i as int).drop_first() =~= y@.skip(i + 1));
        i += 1;
    }
    if i == y.len() {
        false
    } else if i == x.len() {
        true
    } else {
        x[i] < y[i]
    }
}

// ---- lists ------------------------------------------------------------------------

/// What a list is put in order by.
#[verifier::ext_equal]
pub struct Key {
    pub number: int,
    pub text: Seq<char>,
}

/// Smaller numbers first, and among equal numbers by the text.
pub open spec fn before(a: Key, b: Key) -> bool {
    a.number < b.number || (a.number == b.number && precedes(a.text, b.text))
}

proof fn lemma_before(a: Key, b: Key, c: Key)
    ensures
        !before(a, a),
        before(a, b) && before(b, c) ==> before(a, c),
        before(a, b) ==> !before(b, a),
        before(a, b) || before(b, a) || a == b,
        !before(b, a) && !before(c, b) ==> !before(c, a),
{
    law_dictionary_order(a.text, b.text, c.text);
    law_dictionary_order(c.text, a.text, b.text);
    law_dictionary_order(b.text, c.text, a.text);
}

/// `s`, in order already, with `x` put in behind everything it does not come
/// before.
pub open spec fn put_in<V>(s: Seq<V>, x: V, key: spec_fn(V) -> Key) -> Seq<V>
    decreases s.len(),
{
    if s.len() > 0 && before(key(x), key(s.last())) {
        put_in(s.drop_last(), x, key).push(s.last())
    } else {
        s.push(x)
    }
}

/// `s` in the order of `key`, equals in the order they had.
pub open spec fn ranked<V>(s: Seq<V>, key: spec_fn(V) -> Key) -> Seq<V>
    decreases s.len(),
{
    if s.len() == 0 {
        s
    } else {
        put_in(ranked(s.drop_last(), key), s.last(), key)
    }
}

/// Nothing comes after something it belongs before.
pub open spec fn in_order<V>(s: Seq<V>, key: spec_fn(V) -> Key) -> bool {
    forall|i: int, j: int|
        0 <= i < j < s.len() ==> !before(#[trigger] key(s[j]), #[trigger] key(s[i]))
}

/// The entries with the key `k`, in the order they have in `s`.
pub open spec fn with_key<V>(s: Seq<V>, key: spec_fn(V) -> Key, k: Key) -> Seq<V>
    decreases s.len(),
{
    if s.len() == 0 {
        s
    } else if key(s.last()) == k {
        with_key(s.drop_last(), key, k).push(s.last())
    } else {
        with_key(s.drop_last(), key, k)
    }
}

proof fn lemma_put_in<V>(s: Seq<V>, x: V, key: spec_fn(V) -> Key)
    requires
        in_order(s, key),
    ensures
        in_order(put_in(s, x, key), key),
        put_in(s, x, key).len() == s.len() + 1,
        put_in(s, x, key).to_multiset() == s.to_multiset().insert(x),
        forall|i: int|
            0 <= i < put_in(s, x, key).len() ==> put_in(s, x, key)[i] == x || s.contains(
                #[trigger] put_in(s, x, key)[i],
            ),
    decreases s.len(),
{
    broadcast use vstd::seq_lib::group_to_multiset_ensures;

    let r = put_in(s, x, key);
    if s.len() > 0 && before(key(x), key(s.last())) {
        let t = s.drop_last();
        let q = put_in(t, x, key);
        assert(in_order(t, key)) by {
            assert forall|i: int, j: int| 0 <= i < j < t.len() implies !before(
                #[trigger] key(t[j]),
                #[trigger] key(t[i]),
            ) by {
                assert(t[i] == s[i] && t[j] == s[j]);
            }
        }
        lemma_put_in(t, x, key);
        assert(r == q.push(s.last()));
        assert forall|i: int, j: int| 0 <= i < j < r.len() implies !before(
            #[trigger] key(r[j]),
            #[trigger] key(r[i]),
        ) by {
            if j < q.len() {
                assert(r[i] == q[i] && r[j] == q[j]);
            } else {
                assert(r[i] == q[i]);
                if q[i] == x {
                    lemma_before(key(x), key(s.last()), key(x));
                } else {
                    assert(t.contains(q[i]));
                    let k = choose|k: int| 0 <= k < t.len() && t[k] == q[i];
                    assert(s[k] == q[i]);
                    assert(!before(key(s[s.len() - 1]), key(s[k])));
                }
            }
        }
        assert(s =~= t.push(s.last()));
        assert(r.to_multiset() =~= s.to_multiset().insert(x));
        assert forall|i: int| 0 <= i < r.len() implies r[i] == x || s.contains(#[trigger] r[i]) by {
            if i < q.len() {
                assert(r[i] == q[i]);
                if q[i] != x {
                    let k = choose|k: int| 0 <= k < t.len() && t[k] == q[i];
                    assert(s[k] == q[i]);
                }
            } else {
                assert(s[s.len() - 1] == r[i]);
            }
        }
    } else {
        assert forall|i: int, j: int| 0 <= i < j < r.len() implies !before(
            #[trigger] key(r[j]),
            #[trigger] key(r[i]),
        ) by {
            if j == s.len() {
                let last = s[s.len() - 1];
                if i < s.len() - 1 {
                    assert(!before(key(s[s.len() - 1]), key(s[i])));
                    lemma_before(key(s[i]), key(last), key(x));
                }
            } else {
                assert(r[i] == s[i] && r[j] == s[j]);
            }
        }
        assert forall|i: int| 0 <= i < r.len() implies r[i] == x || s.contains(#[trigger] r[i]) by {
            if i < s.len() {
                assert(s[i] == r[i]);
            }
        }
    }
}

/// Ranking gives everything back, in order.
pub proof fn law_ranking_orders<V>(s: Seq<V>, key: spec_fn(V) -> Key)
    ensures
        in_order(ranked(s, key), key),
        ranked(s, key).len() == s.len(),
        ranked(s, key).to_multiset() == s.to_multiset(),
    decreases s.len(),
{
    broadcast use vstd::seq_lib::group_to_multiset_ensures;

    if s.len() > 0 {
        law_ranking_orders(s.drop_last(), key);
        lemma_put_in(ranked(s.drop_last(), key), s.last(), key);
        assert(s =~= s.drop_last().push(s.last()));
    }
}

proof fn lemma_put_in_keeps_equals<V>(s: Seq<V>, x: V, key: spec_fn(V) -> Key, k: Key)
    requires
        in_order(s, key),
    ensures
        with_key(put_in(s, x, key), key, k) == if key(x) == k {
            with_key(s, key, k).push(x)
        } else {
            with_key(s, key, k)
        },
    decreases s.len(),
{
    if s.len() > 0 && before(key(x), key(s.last())) {
        let t = s.drop_last();
        let q = put_in(t, x, key);
        assert forall|i: int, j: int| 0 <= i < j < t.len() implies !before(
            #[trigger] key(t[j]),
            #[trigger] key(t[i]),
        ) by {
            assert(t[i] == s[i] && t[j] == s[j]);
        }
        lemma_put_in_keeps_equals(t, x, key, k);
        assert(q.push(s.last()).drop_last() =~= q);
        lemma_before(key(x), key(s.last()), key(x));
    } else {
        assert(s.push(x).drop_last() =~= s);
    }
}

/// Ranking is stable: entries with one key keep the order they had.
pub proof fn law_ranking_is_stable<V>(s: Seq<V>, key: spec_fn(V) -> Key, k: Key)
    ensures
        with_key(ranked(s, key), key, k) == with_key(s, key, k),
    decreases s.len(),
{
    if s.len() > 0 {
        law_ranking_is_stable(s.drop_last(), key, k);
        law_ranking_orders(s.drop_last(), key);
        lemma_put_in_keeps_equals(ranked(s.drop_last(), key), s.last(), key, k);
    }
}

proof fn lemma_put_in_maps<A, B>(
    s: Seq<A>,
    x: A,
    f: spec_fn(A) -> B,
    ka: spec_fn(A) -> Key,
    kb: spec_fn(B) -> Key,
)
    requires
        forall|a: A| #[trigger] ka(a) == kb(f(a)),
    ensures
        put_in(s, x, ka).map_values(f) == put_in(s.map_values(f), f(x), kb),
    decreases s.len(),
{
    let m = s.map_values(f);
    if s.len() > 0 {
        assert(m.last() == f(s.last()));
        assert(m.drop_last() =~= s.drop_last().map_values(f));
        if before(ka(x), ka(s.last())) {
            lemma_put_in_maps(s.drop_last(), x, f, ka, kb);
            assert(put_in(s, x, ka).map_values(f) =~= put_in(s.drop_last(), x, ka).map_values(
                f,
            ).push(f(s.last())));
        } else {
            assert(s.push(x).map_values(f) =~= m.push(f(x)));
        }
    } else {
        assert(s.push(x).map_values(f) =~= m.push(f(x)));
    }
}

/// Ranking sees no more of an entry than its key.
pub proof fn lemma_ranked_maps<A, B>(
    s: Seq<A>,
    f: spec_fn(A) -> B,
    ka: spec_fn(A) -> Key,
    kb: spec_fn(B) -> Key,
)
    requires
        forall|a: A| #[trigger] ka(a) == kb(f(a)),
    ensures
        ranked(s, ka).map_values(f) == ranked(s.map_values(f), kb),
    decreases s.len(),
{
    let m = s.map_values(f);
    if s.len() > 0 {
        assert(m.last() == f(s.last()));
        assert(m.drop_last() =~= s.drop_last().map_values(f));
        lemma_ranked_maps(s.drop_last(), f, ka, kb);
        lemma_put_in_maps(ranked(s.drop_last(), ka), s.last(), f, ka, kb);
    } else {
        assert(ranked(s, ka).map_values(f) =~= ranked(m, kb));
    }
}

/// An entry of a list that can be put in order.
pub trait Keyed: Sized {
    spec fn key(&self) -> Key;

    /// Whether this entry belongs strictly before `other`.
    fn goes_before(&self, other: &Self) -> (r: bool)
        ensures
            r == before(self.key(), other.key()),
    ;
}

/// The key of an entry.
pub open spec fn key_of<T: Keyed>() -> spec_fn(T) -> Key {
    |x: T| x.key()
}

proof fn lemma_put_in_at<V>(s: Seq<V>, x: V, key: spec_fn(V) -> Key, k: int)
    requires
        0 <= k <= s.len(),
        forall|i: int| k <= i < s.len() ==> before(key(x), #[trigger] key(s[i])),
        k > 0 ==> !before(key(x), key(s[k - 1])),
    ensures
        put_in(s, x, key) == s.insert(k, x),
    decreases s.len(),
{
    if k < s.len() {
        assert(before(key(x), key(s[s.len() - 1])));
        let t = s.drop_last();
        assert forall|i: int| k <= i < t.len() implies before(key(x), #[trigger] key(t[i])) by {
            assert(t[i] == s[i]);
        }
        lemma_put_in_at(t, x, key, k);
        assert(t.insert(k, x).push(s.last()) =~= s.insert(k, x));
    } else {
        assert(s.push(x) =~= s.insert(k, x));
    }
}

/// Puts a list in order, equals staying in the order they have.
pub fn sort<T: Keyed>(v: &mut Vec<T>)
    ensures
        final(v)@ == ranked(old(v)@, key_of::<T>()),
{
    let ghost s = v@;
    let ghost key = key_of::<T>();
    let n: usize = v.len();
    let mut i: usize = 0;
    assert(v@ =~= ranked(s.take(0), key) + s.skip(0));
    while i < n
        invariant
            i <= n == s.len(),
            key == key_of::<T>(),
            ranked(s.take(i as int), key).len() == i,
            v@ == ranked(s.take(i as int), key) + s.skip(i as int),
        decreases n - i,
    {
        let ghost done = ranked(s.take(i as int), key);
        let x = v.remove(i);
        proof {
            assert(x == s[i as int]);
            assert(v@ =~= done + s.skip(i + 1));
        }
        let mut k: usize = i;
        while k > 0 && x.goes_before(&v[k - 1])
            invariant
                k <= i,
                i < n,
                done.len() == i,
                key == key_of::<T>(),
                v@ == done + s.skip(i + 1),
                forall|j: int| k <= j < i ==> before(key(x), #[trigger] key(done[j])),
            decreases k,
        {
            assert(v@[k - 1] == done[k - 1]);
            k -= 1;
        }
        proof {
            if k > 0 {
                assert(v@[k - 1] == done[k - 1]);
            }
            lemma_put_in_at(done, x, key, k as int);
            assert(s.take(i + 1).drop_last() =~= s.take(i as int));
            assert(s.take(i + 1).last() == x);
        }
        v.insert(k, x);
        assert(v@ =~= done.insert(k as int, x) + s.skip(i + 1));
        i += 1;
    }
    assert(s.take(n as int) =~= s);
    assert(v@ =~= ranked(s, key));
}

/// Texts in dictionary order.
pub open spec fn by_text() -> spec_fn(Seq<char>) -> Key {
    |s: Seq<char>| Key { number: 0, text: s }
}

impl Keyed for String {
    open spec fn key(&self) -> Key {
        Key { number: 0, text: self@ }
    }

    fn goes_before(&self, other: &String) -> bool {
        comes_first(self.as_str(), other.as_str())
    }
}

/// Texts in dictionary order.
pub fn sorted(v: &Vec<String>) -> (out: Vec<String>)
    ensures
        pieces::strings(out@) == ranked(pieces::strings(v@), by_text()),
{
    let mut out: Vec<String> = Vec::new();
    let mut i: usize = 0;
    while i < v.len()
        invariant
            i <= v@.len(),
            out@.len() == i,
            forall|j: int| 0 <= j < i ==> (#[trigger] out@[j])@ == v@[j]@,
        decreases v@.len() - i,
    {
        out.push(v[i].clone());
        i += 1;
    }
    proof {
        assert(pieces::strings(out@) =~= pieces::strings(v@));
        let f = |s: String| s@;
        assert(pieces::strings(out@) =~= out@.map_values(f));
        lemma_ranked_maps(out@, f, key_of::<String>(), by_text());
    }
    sort(&mut out);
    proof {
        let f = |s: String| s@;
        assert(pieces::strings(out@) =~= out@.map_values(f));
    }
    out
}

} // verus!
