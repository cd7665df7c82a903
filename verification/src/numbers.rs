//! Whole numbers in decimal.
use vstd::prelude::*;
use vstd::string::*;

use crate::text;

verus! {

/// The number a run of digits stands for.
pub open spec fn value_of(digits: Seq<char>) -> nat
    decreases digits.len(),
{
    if digits.len() == 0 {
        0
    } else {
        value_of(digits.drop_last()) * 10 + ((digits.last() as u32 - '0' as u32) as nat)
    }
}

pub open spec fn all_digits(s: Seq<char>) -> bool {
    forall|i: int| 0 <= i < s.len() ==> text::is_digit(#[trigger] s[i])
}

/// The number a text stands for: digits, at least one, with or without a plus
/// sign before them.
pub open spec fn decimal(s: Seq<char>) -> Option<nat> {
    let digits = if s.len() > 0 && s[0] == '+' {
        s.skip(1)
    } else {
        s
    };
    if digits.len() > 0 && all_digits(digits) {
        Some(value_of(digits))
    } else {
        None
    }
}

/// A number in digits, without leading zeros.
pub open spec fn shown(n: nat) -> Seq<char>
    decreases n,
{
    if n < 10 {
        seq![(n + '0' as u32) as char]
    } else {
        shown(n / 10).push((n % 10 + '0' as u32) as char)
    }
}

pub proof fn lemma_shown(n: nat)
    ensures
        shown(n).len() > 0,
        all_digits(shown(n)),
        value_of(shown(n)) == n,
        n > 0 ==> shown(n)[0] != '0',
    decreases n,
{
    reveal_with_fuel(value_of, 2);
    if n < 10 {
        let s = shown(n);
        assert(s.drop_last() =~= Seq::empty());
    } else {
        lemma_shown(n / 10);
        assert(shown(n).drop_last() =~= shown(n / 10));
    }
}

/// What is written reads back.
pub proof fn law_shown_numbers_read_back(n: nat)
    ensures
        decimal(shown(n)) == Some(n),
{
    lemma_shown(n);
    assert(text::is_digit(shown(n)[0]));
}

/// Two numbers are written the same only if they are the same.
pub proof fn law_shown_numbers_differ(m: nat, n: nat)
    requires
        shown(m) == shown(n),
    ensures
        m == n,
{
    lemma_shown(m);
    lemma_shown(n);
}

proof fn lemma_value_grows(s: Seq<char>, k: int)
    requires
        0 <= k <= s.len(),
        all_digits(s),
    ensures
        value_of(s.take(k)) <= value_of(s),
    decreases s.len() - k,
{
    if k < s.len() {
        lemma_value_grows(s, k + 1);
        assert(s.take(k + 1).drop_last() =~= s.take(k));
        assert(text::is_digit(s[k]));
    } else {
        assert(s.take(k) =~= s);
    }
}

/// The number in `s`, where it is one and fits.
pub fn parse(s: &[char]) -> (r: Option<u64>)
    ensures
        match r {
            Some(v) => decimal(s@) == Some(v as nat),
            None => decimal(s@) matches Some(v) ==> v > u64::MAX,
        },
{
    let start: usize = if s.len() > 0 && s[0] == '+' {
        1
    } else {
        0
    };
    let ghost digits = if s@.len() > 0 && s@[0] == '+' {
        s@.skip(1)
    } else {
        s@
    };
    assert(digits =~= s@.skip(start as int));
    if start == s.len() {
        return None;
    }
    let mut v: u64 = 0;
    let mut i: usize = start;
    while i < s.len()
        invariant
            start <= i <= s@.len(),
            start < s@.len(),
            digits == s@.skip(start as int),
            decimal(s@) == if digits.len() > 0 && all_digits(digits) {
                Some(value_of(digits))
            } else {
                None::<nat>
            },
            all_digits(digits.take(i - start)),
            v == value_of(digits.take(i - start)),
        decreases s@.len() - i,
    {
        let c = s[i];
        assert(c == digits[i - start]);
        if c < '0' || c > '9' {
            assert(!text::is_digit(digits[i - start]));
            return None;
        }
        let d: u64 = (c as u32 - '0' as u32) as u64;
        proof {
            assert(digits.take(i - start + 1).drop_last() =~= digits.take(i - start));
            assert(digits.take(i - start + 1).last() == c);
            if all_digits(digits) {
                lemma_value_grows(digits, i - start + 1);
            }
            assert forall|k: int| 0 <= k < i - start + 1 implies text::is_digit(
                #[trigger] digits.take(i - start + 1)[k],
            ) by {
                if k < i - start {
                    assert(text::is_digit(digits.take(i - start)[k]));
                }
            }
        }
        if v > (u64::MAX - d) / 10 {
            return None;
        }
        v = v * 10 + d;
        i += 1;
    }
    assert(digits.take(s@.len() - start) =~= digits);
    Some(v)
}

/// A number in digits.
pub fn show(n: u128) -> (out: Vec<char>)
    ensures
        out@ == shown(n as nat),
    decreases n,
{
    if n < 10 {
        let c = (n as u8 + 48) as char;
        let mut out: Vec<char> = Vec::new();
        out.push(c);
        assert(out@ =~= shown(n as nat));
        out
    } else {
        let mut out = show(n / 10);
        let c = ((n % 10) as u8 + 48) as char;
        out.push(c);
        out
    }
}

} // verus!
