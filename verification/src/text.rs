//! Characters and strings: the small operations the rest of the library is
//! written in, with strings seen as sequences of characters.
use vstd::prelude::*;
use vstd::string::*;
use vstd::utf8::*;

verus! {

// ---- what the standard library answers --------------------------------------

/// `String::push`: appends one character.
pub assume_specification[ String::push ](s: &mut String, c: char)
    ensures
        final(s)@ == old(s)@.push(c),
;

/// What `char::is_lowercase` answers past ASCII.
pub uninterp spec fn lowercase_past_ascii(c: char) -> bool;

/// What `char::is_uppercase` answers past ASCII.
pub uninterp spec fn uppercase_past_ascii(c: char) -> bool;

/// The characters `char::to_lowercase` yields past ASCII.
pub uninterp spec fn lower_past_ascii(c: char) -> Seq<char>;

/// What `str::to_lowercase` gives for a text that is not all ASCII.
pub uninterp spec fn lowered_past_ascii(s: Seq<char>) -> Seq<char>;

/// `char::is_lowercase`: `a` to `z` among the ASCII characters, and what
/// Unicode calls lowercase past them.
pub assume_specification[ char::is_lowercase ](c: char) -> (r: bool)
    ensures
        (c as u32) < 0x80 ==> r == ('a' <= c <= 'z'),
        (c as u32) >= 0x80 ==> r == lowercase_past_ascii(c),
;

/// `char::is_uppercase`: `A` to `Z` among the ASCII characters, and what
/// Unicode calls uppercase past them.
pub assume_specification[ char::is_uppercase ](c: char) -> (r: bool)
    ensures
        (c as u32) < 0x80 ==> r == ('A' <= c <= 'Z'),
        (c as u32) >= 0x80 ==> r == uppercase_past_ascii(c),
;

/// `char::to_lowercase`: the small letter for `A` to `Z`, the character itself
/// for the rest of ASCII, and Unicode's mapping past it, which may be several
/// characters.
#[verifier::external_body]
fn lower_chars(c: char) -> (r: Vec<char>)
    ensures
        (c as u32) < 0x80 ==> r@ == seq![ascii_lower(c)],
        (c as u32) >= 0x80 ==> r@ == lower_past_ascii(c),
{
    c.to_lowercase().collect()
}

/// `str::to_lowercase`: an ASCII text character by character, and Unicode's
/// mapping for any other.
pub assume_specification[ str::to_lowercase ](s: &str) -> (r: String)
    ensures
        is_ascii_chars(s@) ==> r@ == s@.map_values(|c: char| ascii_lower(c)),
        !is_ascii_chars(s@) ==> r@ == lowered_past_ascii(s@),
;

// ---- characters ---------------------------------------------------------------

/// An ASCII capital as its small letter; any other character as itself.
pub open spec fn ascii_lower(c: char) -> char {
    if 'A' <= c <= 'Z' {
        ((c as u32) + 32) as char
    } else {
        c
    }
}

/// A character in small letters: one character for one character.
pub open spec fn lower_char(c: char) -> char {
    if (c as u32) < 0x80 {
        ascii_lower(c)
    } else {
        first_or(lower_past_ascii(c), c)
    }
}

/// The first of the characters, or `c` where there is none.
pub open spec fn first_or(chars: Seq<char>, c: char) -> char {
    if chars.len() > 0 {
        chars[0]
    } else {
        c
    }
}

/// A small letter.
pub open spec fn is_lower(c: char) -> bool {
    if (c as u32) < 0x80 {
        'a' <= c <= 'z'
    } else {
        lowercase_past_ascii(c)
    }
}

/// A capital.
pub open spec fn is_upper(c: char) -> bool {
    if (c as u32) < 0x80 {
        'A' <= c <= 'Z'
    } else {
        uppercase_past_ascii(c)
    }
}

/// The characters with Unicode's `White_Space` property.
pub open spec fn is_white(c: char) -> bool {
    let n = c as u32;
    ||| 0x09 <= n <= 0x0D
    ||| n == 0x20
    ||| n == 0x85
    ||| n == 0xA0
    ||| n == 0x1680
    ||| 0x2000 <= n <= 0x200A
    ||| n == 0x2028
    ||| n == 0x2029
    ||| n == 0x202F
    ||| n == 0x205F
    ||| n == 0x3000
}

/// Unicode's control characters.
pub open spec fn is_control(c: char) -> bool {
    let n = c as u32;
    n <= 0x1F || 0x7F <= n <= 0x9F
}

/// A decimal digit.
pub open spec fn is_digit(c: char) -> bool {
    '0' <= c <= '9'
}

pub fn white(c: char) -> (r: bool)
    ensures
        r == is_white(c),
{
    let n: u32 = c as u32;
    (0x09 <= n && n <= 0x0D) || n == 0x20 || n == 0x85 || n == 0xA0 || n == 0x1680 || (0x2000 <= n
        && n <= 0x200A) || n == 0x2028 || n == 0x2029 || n == 0x202F || n == 0x205F || n == 0x3000
}

pub fn control(c: char) -> (r: bool)
    ensures
        r == is_control(c),
{
    let n: u32 = c as u32;
    n <= 0x1F || (0x7F <= n && n <= 0x9F)
}

pub fn small(c: char) -> (r: char)
    ensures
        r == ascii_lower(c),
{
    if 'A' <= c && c <= 'Z' {
        ((c as u8) + 32) as char
    } else {
        c
    }
}

/// The first of the characters, or `c` where there is none.
pub fn head_or(chars: &Vec<char>, c: char) -> (r: char)
    ensures
        r == first_or(chars@, c),
{
    if chars.len() > 0 {
        chars[0]
    } else {
        c
    }
}

/// A character in small letters: one character for one character.
pub fn first_lower(c: char) -> (r: char)
    ensures
        r == lower_char(c),
{
    head_or(&lower_chars(c), c)
}

// ---- equality -----------------------------------------------------------------

/// Whether two slices hold the same.
pub fn same_bytes(a: &[u8], b: &[u8]) -> (r: bool)
    ensures
        r == (a@ == b@),
{
    if a.len() != b.len() {
        return false;
    }
    let mut i: usize = 0;
    while i < a.len()
        invariant
            a@.len() == b@.len(),
            i <= a@.len(),
            forall|k: int| 0 <= k < i ==> a@[k] == b@[k],
        decreases a@.len() - i,
    {
        if a[i] != b[i] {
            assert(a@[i as int] != b@[i as int]);
            return false;
        }
        i += 1;
    }
    assert(a@ == b@);
    true
}

/// Whether two slices hold the same characters in the same order.
pub fn same_chars(a: &[char], b: &[char]) -> (r: bool)
    ensures
        r == (a@ == b@),
{
    if a.len() != b.len() {
        return false;
    }
    let mut i: usize = 0;
    while i < a.len()
        invariant
            a@.len() == b@.len(),
            i <= a@.len(),
            forall|k: int| 0 <= k < i ==> a@[k] == b@[k],
        decreases a@.len() - i,
    {
        if a[i] != b[i] {
            assert(a@[i as int] != b@[i as int]);
            return false;
        }
        i += 1;
    }
    assert(a@ == b@);
    true
}

/// Whether two strings hold the same characters in the same order.
pub fn same(a: &str, b: &str) -> (r: bool)
    ensures
        r == (a@ == b@),
{
    proof {
        encode_utf8_decode_utf8(a@);
        encode_utf8_decode_utf8(b@);
    }
    same_bytes(a.as_bytes(), b.as_bytes())
}

// ---- between strings and characters -------------------------------------------

/// The characters of a string, in order.
pub fn chars_of(s: &str) -> (out: Vec<char>)
    ensures
        out@ == s@,
{
    let mut out: Vec<char> = Vec::new();
    for c in it: s.chars()
        invariant
            it.seq() == s@,
            out@ == s@.take(it.index() as int),
    {
        out.push(c);
        assert(s@.take(it.index() + 1) == s@.take(it.index() as int).push(c));
    }
    assert(s@.take(s@.len() as int) == s@);
    out
}

/// A string holding exactly `chars`.
pub fn string_of(chars: &[char]) -> (out: String)
    ensures
        out@ == chars@,
{
    let mut out = String::new();
    let mut i: usize = 0;
    while i < chars.len()
        invariant
            i <= chars@.len(),
            out@ == chars@.take(i as int),
        decreases chars@.len() - i,
    {
        out.push(chars[i]);
        assert(chars@.take(i + 1) == chars@.take(i as int).push(chars@[i as int]));
        i += 1;
    }
    assert(chars@.take(chars@.len() as int) == chars@);
    out
}

/// A copy of the characters from `a` up to `b`.
pub fn slice_of(chars: &[char], a: usize, b: usize) -> (out: Vec<char>)
    requires
        a <= b <= chars@.len(),
    ensures
        out@ == chars@.subrange(a as int, b as int),
{
    let mut out: Vec<char> = Vec::new();
    let mut i: usize = a;
    while i < b
        invariant
            a <= i <= b <= chars@.len(),
            out@ == chars@.subrange(a as int, i as int),
        decreases b - i,
    {
        out.push(chars[i]);
        assert(chars@.subrange(a as int, i + 1) == chars@.subrange(a as int, i as int).push(
            chars@[i as int],
        ));
        i += 1;
    }
    out
}

// ---- case ------------------------------------------------------------------------

/// A text in small letters.
pub open spec fn lowered(s: Seq<char>) -> Seq<char> {
    if is_ascii_chars(s) {
        s.map_values(|c: char| ascii_lower(c))
    } else {
        lowered_past_ascii(s)
    }
}

pub fn lower(s: &str) -> (r: String)
    ensures
        r@ == lowered(s@),
{
    s.to_lowercase()
}

/// Equal up to the case of ASCII letters.
pub open spec fn same_ignoring_case(a: Seq<char>, b: Seq<char>) -> bool {
    &&& a.len() == b.len()
    &&& forall|i: int| 0 <= i < a.len() ==> ascii_lower(#[trigger] a[i]) == ascii_lower(b[i])
}

pub fn eq_ignore_ascii_case(a: &str, b: &str) -> (r: bool)
    ensures
        r == same_ignoring_case(a@, b@),
{
    let x = chars_of(a);
    let y = chars_of(b);
    if x.len() != y.len() {
        return false;
    }
    let mut i: usize = 0;
    while i < x.len()
        invariant
            x@ == a@,
            y@ == b@,
            x@.len() == y@.len(),
            i <= x@.len(),
            forall|k: int| 0 <= k < i ==> ascii_lower(#[trigger] a@[k]) == ascii_lower(b@[k]),
        decreases x@.len() - i,
    {
        if small(x[i]) != small(y[i]) {
            assert(ascii_lower(a@[i as int]) != ascii_lower(b@[i as int]));
            return false;
        }
        i += 1;
    }
    true
}

// ---- trimming ----------------------------------------------------------------------

/// A text without the white space around it.
pub open spec fn trimmed(s: Seq<char>) -> Seq<char>
    decreases s.len(),
{
    if s.len() > 0 && is_white(s.first()) {
        trimmed(s.drop_first())
    } else if s.len() > 0 && is_white(s.last()) {
        trimmed(s.drop_last())
    } else {
        s
    }
}

pub fn trim(chars: &[char]) -> (out: Vec<char>)
    ensures
        out@ == trimmed(chars@),
{
    let mut a: usize = 0;
    let mut b: usize = chars.len();
    assert(chars@.subrange(0, chars@.len() as int) == chars@);
    while a < b && white(chars[a])
        invariant
            a <= b == chars@.len(),
            trimmed(chars@.subrange(a as int, b as int)) == trimmed(chars@),
        decreases b - a,
    {
        assert(chars@.subrange(a as int, b as int).drop_first() == chars@.subrange(
            a + 1,
            b as int,
        ));
        a += 1;
    }
    while a < b && white(chars[b - 1])
        invariant
            a <= b <= chars@.len(),
            a < b ==> !is_white(chars@[a as int]),
            trimmed(chars@.subrange(a as int, b as int)) == trimmed(chars@),
        decreases b - a,
    {
        assert(chars@.subrange(a as int, b as int).drop_last() == chars@.subrange(
            a as int,
            b - 1,
        ));
        b -= 1;
    }
    slice_of(chars, a, b)
}

pub fn trim_str(s: &str) -> (out: String)
    ensures
        out@ == trimmed(s@),
{
    let c = chars_of(s);
    string_of(trim(c.as_slice()).as_slice())
}

} // verus!
