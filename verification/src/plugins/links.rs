//! Links with a place for an argument.
//!
//! A `{token}` in a link stands for a value that is asked for when the link is
//! opened. The value is percent-encoded where the link is a URL, and left as
//! it is in a path.
use vstd::prelude::*;
use vstd::string::*;
use vstd::utf8::*;

use crate::offsets;
use crate::pieces;
use crate::text::{chars_of, slice_of, string_of};

verus! {

/// The name of the first `{token}` in a link.
pub open spec fn token_in(link: Seq<char>) -> Option<Seq<char>> {
    let start = pieces::first_of(link, '{');
    let rest = link.skip(start + 1);
    let end = pieces::first_of(rest, '}');
    if start < link.len() && end < rest.len() {
        Some(rest.take(end))
    } else {
        None
    }
}

/// A token as it stands in a link.
pub open spec fn braced(token: Seq<char>) -> Seq<char> {
    seq!['{'] + token + seq!['}']
}

/// A byte that stands for itself in a URL.
pub open spec fn unreserved(b: u8) -> bool {
    ||| 0x41 <= b <= 0x5A
    ||| 0x61 <= b <= 0x7A
    ||| 0x30 <= b <= 0x39
    ||| b == 0x2D
    ||| b == 0x5F
    ||| b == 0x2E
    ||| b == 0x7E
}

/// A hexadecimal digit.
pub open spec fn hex(n: u8) -> char {
    if n < 10 {
        (0x30 + n) as char
    } else {
        (0x41 + (n - 10)) as char
    }
}

/// A byte in a URL.
pub open spec fn encoded(b: u8) -> Seq<char> {
    if unreserved(b) {
        seq![b as char]
    } else {
        seq!['%', hex((b / 16) as u8), hex((b % 16) as u8)]
    }
}

/// Bytes in a URL.
pub open spec fn percent_encoded(bytes: Seq<u8>) -> Seq<char>
    decreases bytes.len(),
{
    if bytes.len() == 0 {
        Seq::empty()
    } else {
        percent_encoded(bytes.drop_last()) + encoded(bytes.last())
    }
}

/// A link that is a URL.
pub open spec fn is_url(link: Seq<char>) -> bool {
    pieces::holds(link, "://"@)
}

/// A link with `value` in place of its token, wherever that stands.
pub open spec fn filled_in(link: Seq<char>, value: Seq<char>) -> Seq<char> {
    match token_in(link) {
        Some(token) => pieces::replaced(
            link,
            braced(token),
            if is_url(link) {
                percent_encoded(encode_utf8(value))
            } else {
                value
            },
        ),
        None => link,
    }
}

/// The name of the first `{token}` in a link; `None` when it takes no
/// argument.
pub fn placeholder(link: &str) -> (r: Option<String>)
    ensures
        match r {
            Some(token) => token_in(link@) == Some(token@),
            None => token_in(link@) is None,
        },
{
    let chars = chars_of(link);
    let n: usize = chars.len();
    let start: usize = pieces::find(chars.as_slice(), '{');
    if start == n {
        return None;
    }
    let end: usize = pieces::find_from(chars.as_slice(), start + 1, '}');
    if end == n {
        return None;
    }
    let token = slice_of(chars.as_slice(), start + 1, end);
    assert(token@ =~= link@.skip(start + 1).take(end - (start + 1)));
    Some(string_of(token.as_slice()))
}

/// Whether a link is a URL.
pub fn url(link: &str) -> (r: bool)
    ensures
        r == is_url(link@),
{
    let chars = chars_of(link);
    let mark = chars_of("://");
    pieces::contains(chars.as_slice(), mark.as_slice())
}

fn hex_digit(n: u8) -> (c: char)
    requires
        n < 16,
    ensures
        c == hex(n),
{
    if n < 10 {
        (0x30 + n) as char
    } else {
        (0x41 + (n - 10)) as char
    }
}

/// A text in a URL.
pub fn percent_encode(s: &str) -> (r: String)
    ensures
        r@ == percent_encoded(encode_utf8(s@)),
{
    let bytes = s.as_bytes();
    let mut out: Vec<char> = Vec::new();
    let mut i: usize = 0;
    while i < bytes.len()
        invariant
            i <= bytes@.len(),
            out@ == percent_encoded(bytes@.take(i as int)),
        decreases bytes@.len() - i,
    {
        let b: u8 = bytes[i];
        let ghost before = out@;
        assert(bytes@.take(i + 1).drop_last() =~= bytes@.take(i as int));
        if (0x41 <= b && b <= 0x5A) || (0x61 <= b && b <= 0x7A) || (0x30 <= b && b <= 0x39) || b
            == 0x2D || b == 0x5F || b == 0x2E || b == 0x7E {
            out.push(b as char);
        } else {
            out.push('%');
            out.push(hex_digit(b / 16));
            out.push(hex_digit(b % 16));
        }
        assert(out@ =~= before + encoded(b));
        i += 1;
    }
    assert(bytes@.take(bytes@.len() as int) =~= bytes@);
    string_of(out.as_slice())
}

/// A link with `value` in place of its token.
pub fn fill(link: &str, value: &str) -> (r: String)
    ensures
        r@ == filled_in(link@, value@),
{
    let token = match placeholder(link) {
        Some(token) => token,
        None => {
            return link.to_owned();
        },
    };
    let value = if url(link) {
        percent_encode(value)
    } else {
        value.to_owned()
    };
    let name = chars_of(token.as_str());
    let mut mark: Vec<char> = Vec::new();
    mark.push('{');
    pieces::append(&mut mark, name.as_slice());
    mark.push('}');
    assert(mark@ =~= braced(token@));
    let l = chars_of(link);
    let v = chars_of(value.as_str());
    let out = pieces::replace(l.as_slice(), mark.as_slice(), v.as_slice());
    string_of(out.as_slice())
}

/// A character that can stand in a URL as it is.
pub open spec fn url_char(c: char) -> bool {
    ||| 'A' <= c <= 'Z'
    ||| 'a' <= c <= 'z'
    ||| '0' <= c <= '9'
    ||| c == '-'
    ||| c == '_'
    ||| c == '.'
    ||| c == '~'
    ||| c == '%'
}

/// Whatever the value, what goes into a URL holds only characters that can
/// stand there: no space, no slash, no ampersand.
pub proof fn law_encoded_values_fit_a_url(bytes: Seq<u8>)
    ensures
        forall|i: int|
            0 <= i < percent_encoded(bytes).len() ==> url_char(
                #[trigger] percent_encoded(bytes)[i],
            ),
    decreases bytes.len(),
{
    if bytes.len() > 0 {
        law_encoded_values_fit_a_url(bytes.drop_last());
        let before = percent_encoded(bytes.drop_last());
        let r = percent_encoded(bytes);
        let e = encoded(bytes.last());
        assert forall|i: int| 0 <= i < r.len() implies url_char(#[trigger] r[i]) by {
            if i < before.len() {
                assert(r[i] == before[i]);
            } else {
                assert(r[i] == e[i - before.len()]);
            }
        }
    }
}

/// A text is encoded piece by piece.
pub proof fn law_encoding_goes_piece_by_piece(a: Seq<u8>, b: Seq<u8>)
    ensures
        percent_encoded(a + b) == percent_encoded(a) + percent_encoded(b),
    decreases b.len(),
{
    if b.len() == 0 {
        assert(a + b =~= a);
        assert(percent_encoded(a + b) =~= percent_encoded(a) + percent_encoded(b));
    } else {
        law_encoding_goes_piece_by_piece(a, b.drop_last());
        assert((a + b).drop_last() =~= a + b.drop_last());
        assert(percent_encoded(a + b) =~= percent_encoded(a) + percent_encoded(b));
    }
}

/// The value of a hexadecimal digit.
pub open spec fn hex_value(c: char) -> int {
    if c <= '9' {
        c as int - '0' as int
    } else {
        c as int - 'A' as int + 10
    }
}

/// The bytes that stand in a URL: `%` and two digits for one, any other
/// character for itself.
pub open spec fn percent_decoded(s: Seq<char>) -> Seq<u8>
    decreases s.len(),
{
    if s.len() == 0 {
        Seq::empty()
    } else if s[0] == '%' && s.len() >= 3 {
        seq![(16 * hex_value(s[1]) + hex_value(s[2])) as u8] + percent_decoded(s.skip(3))
    } else {
        seq![s[0] as u8] + percent_decoded(s.skip(1))
    }
}

proof fn lemma_encoded_front(b: u8, rest: Seq<char>)
    ensures
        percent_decoded(encoded(b) + rest) == seq![b] + percent_decoded(rest),
{
    let e = encoded(b);
    let s = e + rest;
    if unreserved(b) {
        assert(s[0] == b as char);
        assert(s.skip(1) =~= rest);
    } else {
        assert(s[0] == '%' && s[1] == hex((b / 16) as u8) && s[2] == hex((b % 16) as u8));
        assert(hex_value(hex((b / 16) as u8)) == b / 16);
        assert(hex_value(hex((b % 16) as u8)) == b % 16);
        assert(s.skip(3) =~= rest);
    }
}

/// Encoding can be undone.
pub proof fn law_encoding_can_be_undone(bytes: Seq<u8>)
    ensures
        percent_decoded(percent_encoded(bytes)) == bytes,
    decreases bytes.len(),
{
    if bytes.len() == 0 {
        assert(bytes =~= Seq::empty());
    } else {
        let (first, rest) = (seq![bytes[0]], bytes.drop_first());
        law_encoding_can_be_undone(rest);
        assert(first + rest =~= bytes);
        law_encoding_goes_piece_by_piece(first, rest);
        assert(first.drop_last() =~= Seq::empty());
        reveal_with_fuel(percent_encoded, 2);
        assert(percent_encoded(first) =~= encoded(bytes[0]));
        lemma_encoded_front(bytes[0], percent_encoded(rest));
    }
}

/// A text that went into a URL can be read from it, and texts that differ are
/// encoded differently.
pub proof fn law_encoded_texts_read_back(s: Seq<char>, t: Seq<char>)
    ensures
        decode_utf8(percent_decoded(percent_encoded(encode_utf8(s)))) == s,
        percent_encoded(encode_utf8(s)) == percent_encoded(encode_utf8(t)) ==> s == t,
        percent_encoded(encode_utf8(s + t)) == percent_encoded(encode_utf8(s)) + percent_encoded(
            encode_utf8(t),
        ),
{
    law_encoding_can_be_undone(encode_utf8(s));
    law_encoding_can_be_undone(encode_utf8(t));
    encode_utf8_decode_utf8(s);
    encode_utf8_decode_utf8(t);
    offsets::lemma_encode_concat(s, t);
    law_encoding_goes_piece_by_piece(encode_utf8(s), encode_utf8(t));
}

/// A link without a token is opened as it stands, whatever is typed.
pub proof fn law_links_without_a_token_take_no_argument(link: Seq<char>, value: Seq<char>)
    requires
        !link.contains('{') || !link.contains('}'),
    ensures
        token_in(link) is None,
        filled_in(link, value) == link,
{
    pieces::lemma_first_of(link, '{');
    let start = pieces::first_of(link, '{');
    if start < link.len() {
        let rest = link.skip(start + 1);
        pieces::lemma_first_of(rest, '}');
        if rest.contains('}') {
            let k = choose|k: int| 0 <= k < rest.len() && rest[k] == '}';
            assert(link[start + 1 + k] == '}');
        }
    }
}

} // verus!
