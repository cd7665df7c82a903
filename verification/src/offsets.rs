//! Byte offsets into UTF-8 text, and the characters they fall on.
use vstd::prelude::*;
use vstd::string::*;
use vstd::utf8::*;

verus! {

/// `char::from_u32`: the character with that code, where there is one.
pub assume_specification[ char::from_u32 ](n: u32) -> (r: Option<char>)
    ensures
        r == if is_scalar(n) {
            Some(n as char)
        } else {
            None
        },
;

/// The byte at which character `i` of `s` starts.
pub open spec fn offset(s: Seq<char>, i: int) -> nat {
    encode_utf8(s.take(i)).len()
}

/// `pos` is where a character of `s` starts, or the end of `s`.
pub open spec fn on_boundary(s: Seq<char>, pos: int) -> bool {
    exists|i: int| 0 <= i <= s.len() && #[trigger] offset(s, i) == pos
}

pub proof fn lemma_encode_concat(a: Seq<char>, b: Seq<char>)
    ensures
        encode_utf8(a + b) == encode_utf8(a) + encode_utf8(b),
    decreases a.len(),
{
    if a.len() == 0 {
        assert(a + b == b);
        assert(encode_utf8(a) + encode_utf8(b) == encode_utf8(b));
    } else {
        assert((a + b).drop_first() == a.drop_first() + b);
        lemma_encode_concat(a.drop_first(), b);
        assert((a + b)[0] == a[0]);
        assert(encode_utf8(a + b) == encode_utf8(a) + encode_utf8(b));
    }
}

pub proof fn lemma_encode_one(c: char)
    ensures
        encode_utf8(seq![c]) == encode_scalar(c as u32),
{
    assert(seq![c].drop_first() == Seq::<char>::empty());
    assert(encode_utf8(seq![c]) == encode_scalar(c as u32) + encode_utf8(Seq::<char>::empty()));
    assert(encode_scalar(c as u32) + Seq::<u8>::empty() == encode_scalar(c as u32));
}

pub proof fn lemma_offset_step(s: Seq<char>, i: int)
    requires
        0 <= i < s.len(),
    ensures
        offset(s, i + 1) == offset(s, i) + encode_scalar(s[i] as u32).len(),
        1 <= encode_scalar(s[i] as u32).len() <= 4,
{
    assert(s.take(i + 1) == s.take(i) + seq![s[i]]);
    lemma_encode_concat(s.take(i), seq![s[i]]);
    lemma_encode_one(s[i]);
}

pub proof fn lemma_offset_ends(s: Seq<char>)
    ensures
        offset(s, 0) == 0,
        offset(s, s.len() as int) == encode_utf8(s).len(),
{
    assert(s.take(0) == Seq::<char>::empty());
    assert(s.take(s.len() as int) == s);
}

pub proof fn lemma_offset_increases(s: Seq<char>, i: int, j: int)
    requires
        0 <= i <= j <= s.len(),
    ensures
        offset(s, i) + (j - i) <= offset(s, j) <= encode_utf8(s).len(),
    decreases s.len() - i,
{
    if i < j {
        lemma_offset_step(s, i);
        lemma_offset_increases(s, i + 1, j);
    } else if j < s.len() {
        lemma_offset_step(s, j);
        lemma_offset_increases(s, j + 1, j + 1);
    } else {
        lemma_offset_ends(s);
    }
}

/// Equal offsets are the same character.
pub proof fn lemma_offset_names_one(s: Seq<char>, i: int, j: int)
    requires
        0 <= i <= s.len(),
        0 <= j <= s.len(),
        offset(s, i) == offset(s, j),
    ensures
        i == j,
{
    if i < j {
        lemma_offset_increases(s, i, j);
    } else if j < i {
        lemma_offset_increases(s, j, i);
    }
}

pub proof fn lemma_encode_subrange(s: Seq<char>, i: int, j: int)
    requires
        0 <= i <= j <= s.len(),
    ensures
        offset(s, i) <= offset(s, j) <= encode_utf8(s).len(),
        encode_utf8(s).subrange(offset(s, i) as int, offset(s, j) as int) == encode_utf8(
            s.subrange(i, j),
        ),
{
    lemma_offset_increases(s, i, j);
    let (x, y, z) = (s.take(i), s.subrange(i, j), s.skip(j));
    assert(s.take(j) == x + y);
    lemma_encode_concat(x, y);
    assert(s == s.take(j) + z);
    lemma_encode_concat(s.take(j), z);
    assert(encode_utf8(s) == encode_utf8(x) + encode_utf8(y) + encode_utf8(z));
    assert(encode_utf8(s).subrange(offset(s, i) as int, offset(s, j) as int) =~= encode_utf8(y));
}

pub proof fn lemma_encode_injective(a: Seq<char>, b: Seq<char>)
    requires
        encode_utf8(a) == encode_utf8(b),
    ensures
        a == b,
{
    encode_utf8_decode_utf8(a);
    encode_utf8_decode_utf8(b);
}

pub proof fn lemma_offset_is_boundary(s: Seq<char>, i: int)
    requires
        0 <= i <= s.len(),
    ensures
        is_char_boundary(encode_utf8(s), offset(s, i) as int),
    decreases i,
{
    broadcast use encode_utf8_valid_utf8;

    if i == 0 {
        lemma_offset_ends(s);
    } else {
        let rest = s.drop_first();
        encode_utf8_first_scalar(s);
        assert(pop_first_scalar(encode_utf8(s)) =~= encode_utf8(rest));
        lemma_offset_is_boundary(rest, i - 1);
        assert(s.take(i) == seq![s[0]] + rest.take(i - 1));
        lemma_encode_concat(seq![s[0]], rest.take(i - 1));
        lemma_encode_one(s[0]);
        lemma_offset_increases(s, i, i);
    }
}

/// Bytes a character takes.
pub fn width(c: char) -> (n: usize)
    ensures
        n == encode_scalar(c as u32).len(),
        1 <= n <= 4,
{
    let v: u32 = c as u32;
    if v <= 0x7F {
        1
    } else if v <= 0x7FF {
        2
    } else if v <= 0xFFFF {
        3
    } else {
        4
    }
}

/// The byte at which character `i` starts.
pub fn offset_of(chars: &[char], i: usize) -> (pos: usize)
    requires
        i <= chars@.len(),
        encode_utf8(chars@).len() <= usize::MAX,
    ensures
        pos == offset(chars@, i as int),
{
    let mut pos: usize = 0;
    let mut k: usize = 0;
    proof {
        lemma_offset_ends(chars@);
    }
    while k < i
        invariant
            k <= i <= chars@.len(),
            encode_utf8(chars@).len() <= usize::MAX,
            pos == offset(chars@, k as int),
        decreases i - k,
    {
        proof {
            lemma_offset_step(chars@, k as int);
            lemma_offset_increases(chars@, k + 1, k + 1);
        }
        pos += width(chars[k]);
        k += 1;
    }
    pos
}

/// The character that starts at byte `pos`, or `None` when `pos` falls inside
/// a character or past the end.
pub fn index_at(chars: &[char], pos: usize) -> (r: Option<usize>)
    requires
        encode_utf8(chars@).len() <= usize::MAX,
    ensures
        match r {
            Some(i) => i <= chars@.len() && offset(chars@, i as int) == pos,
            None => !on_boundary(chars@, pos as int),
        },
{
    let mut at: usize = 0;
    let mut k: usize = 0;
    proof {
        lemma_offset_ends(chars@);
    }
    while k < chars.len() && at < pos
        invariant
            k <= chars@.len(),
            encode_utf8(chars@).len() <= usize::MAX,
            at == offset(chars@, k as int),
            forall|i: int| 0 <= i < k ==> #[trigger] offset(chars@, i) < pos,
        decreases chars@.len() - k,
    {
        proof {
            lemma_offset_step(chars@, k as int);
            lemma_offset_increases(chars@, k + 1, k + 1);
        }
        at += width(chars[k]);
        k += 1;
    }
    if at == pos {
        Some(k)
    } else {
        proof {
            assert forall|i: int| 0 <= i <= chars@.len() implies #[trigger] offset(chars@, i)
                != pos by {
                if i >= k {
                    lemma_offset_increases(chars@, k as int, i);
                }
            }
        }
        None
    }
}

/// Every text that exists has its bytes counted by a `usize`.
pub fn byte_len(s: &str) -> (n: usize)
    ensures
        n == encode_utf8(s@).len(),
{
    s.as_bytes().len()
}

/// The part of a text between two characters.
pub fn part(s: &str, a: usize, b: usize) -> (r: &str)
    requires
        on_boundary(s@, a as int),
        on_boundary(s@, b as int),
        a <= b,
    ensures
        forall|i: int, j: int|
            0 <= i <= j <= s@.len() && #[trigger] offset(s@, i) == a && #[trigger] offset(s@, j)
                == b ==> r@ == s@.subrange(i, j),
{
    let ghost i = choose|i: int| 0 <= i <= s@.len() && #[trigger] offset(s@, i) == a;
    let ghost j = choose|j: int| 0 <= j <= s@.len() && #[trigger] offset(s@, j) == b;
    proof {
        if j < i {
            lemma_offset_increases(s@, j, i);
        }
        lemma_offset_is_boundary(s@, j);
        lemma_encode_subrange(s@, 0, j);
        lemma_offset_ends(s@);
    }
    let head = s.split_at(b).0;
    proof {
        lemma_encode_injective(head@, s@.take(j));
        assert(s@.take(j).take(i) == s@.take(i));
        lemma_offset_is_boundary(head@, i);
    }
    let r = head.split_at(a).1;
    proof {
        lemma_encode_subrange(s@, i, j);
        lemma_offset_ends(head@);
        lemma_encode_subrange(head@, i, j);
        assert(head@.subrange(i, j) == s@.subrange(i, j));
        lemma_encode_injective(r@, s@.subrange(i, j));
        assert forall|i1: int, j1: int|
            0 <= i1 <= j1 <= s@.len() && #[trigger] offset(s@, i1) == a && #[trigger] offset(
                s@,
                j1,
            ) == b implies r@ == s@.subrange(i1, j1) by {
            lemma_offset_names_one(s@, i, i1);
            lemma_offset_names_one(s@, j, j1);
        }
    }
    r
}

} // verus!
