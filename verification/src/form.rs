//! Submitted forms and escaped text.

use vstd::prelude::*;
use crate::text;
use crate::parts;
use crate::parts::{split, Separator};
use crate::text::{chars_of, find_text, from_utf8_lossy, same_text, text_between};

verus! {

/// What follows the first blank line of a request; empty where there is none.
pub open spec fn body_of(request: Seq<char>) -> Seq<char> {
    match text::first_at(request, "\r\n\r\n"@, 0) {
        Some(k) => request.skip(k + 4),
        None => Seq::empty(),
    }
}

pub fn extract_body(request: &str) -> (r: String)
    ensures
        r@ == body_of(request@),
{
    proof {
        reveal_strlit("\r\n\r\n");
    }
    let v = chars_of(request);
    let blank = chars_of("\r\n\r\n");
    let size: usize = v.len();
    match find_text(&v, &blank, 0) {
        Some(k) => {
            let r = text_between(&v, k + 4, size);
            assert(r@ =~= request@.skip(k + 4));
            r
        },
        None => {
            let r: String = String::new();
            assert(r@ =~= Seq::empty());
            r
        },
    }
}

/// The value of a hexadecimal digit.
pub open spec fn hex_value(b: u8) -> Option<u8> {
    if 0x30 <= b <= 0x39 {
        Some((b - 0x30) as u8)
    } else if 0x41 <= b <= 0x46 {
        Some((b - 0x41 + 10) as u8)
    } else if 0x61 <= b <= 0x66 {
        Some((b - 0x61 + 10) as u8)
    } else {
        None
    }
}

/// The byte that two hexadecimal digits stand for; a plus sign may stand for the first.
pub open spec fn hex_byte(a: u8, b: u8) -> Option<u8> {
    match (hex_value(a), hex_value(b)) {
        (Some(high), Some(low)) => Some((16 * high + low) as u8),
        (None, Some(low)) => if a == 0x2b {
            Some(low)
        } else {
            None
        },
        _ => None,
    }
}

/// The bytes that encoded bytes stand for, from position `i` on: a percent sign with two
/// hexadecimal digits is one byte, and a plus sign is a blank.
pub open spec fn decoded(b: Seq<u8>, i: int) -> Seq<u8>
    decreases b.len() - i,
{
    if i < 0 || i >= b.len() {
        Seq::empty()
    } else if b[i] == 0x25 && i + 2 < b.len() && hex_byte(b[i + 1], b[i + 2]) is Some {
        seq![hex_byte(b[i + 1], b[i + 2])->Some_0] + decoded(b, i + 3)
    } else if b[i] == 0x2b {
        seq![0x20u8] + decoded(b, i + 1)
    } else {
        seq![b[i]] + decoded(b, i + 1)
    }
}

/// The text that an encoded text stands for.
pub open spec fn decoded_text(s: Seq<char>) -> Seq<char> {
    text::lossy_utf8(decoded(vstd::utf8::encode_utf8(s), 0))
}

fn hex_of(b: u8) -> (r: Option<u8>)
    ensures
        r == hex_value(b),
{
    if 0x30 <= b && b <= 0x39 {
        Some(b - 0x30)
    } else if 0x41 <= b && b <= 0x46 {
        Some(b - 0x41 + 10)
    } else if 0x61 <= b && b <= 0x66 {
        Some(b - 0x61 + 10)
    } else {
        None
    }
}

fn byte_of(a: u8, b: u8) -> (r: Option<u8>)
    ensures
        r == hex_byte(a, b),
{
    match (hex_of(a), hex_of(b)) {
        (Some(high), Some(low)) => Some(16 * high + low),
        (None, Some(low)) => if a == 0x2b {
            Some(low)
        } else {
            None
        },
        _ => None,
    }
}

fn decode_bytes(bytes: &[u8]) -> (r: Vec<u8>)
    ensures
        r@ == decoded(bytes@, 0),
{
    let mut result: Vec<u8> = Vec::new();
    let size: usize = bytes.len();
    let mut i: usize = 0;
    assert(result@ + decoded(bytes@, 0) =~= decoded(bytes@, 0));
    while i < size
        invariant
            i <= size,
            size == bytes@.len(),
            decoded(bytes@, 0) == result@ + decoded(bytes@, i as int),
        decreases size - i,
    {
        let ghost before = result@;
        let b: u8 = bytes[i];
        let coded: Option<u8> = if b == 0x25 && size - i > 2 {
            byte_of(bytes[i + 1], bytes[i + 2])
        } else {
            None
        };
        match coded {
            Some(byte) => {
                result.push(byte);
                assert(before + (seq![byte] + decoded(bytes@, i + 3)) =~= result@ + decoded(
                    bytes@,
                    i + 3,
                ));
                i += 3;
            },
            None => {
                let plain: u8 = if b == 0x2b {
                    0x20
                } else {
                    b
                };
                result.push(plain);
                assert(before + (seq![plain] + decoded(bytes@, i + 1)) =~= result@ + decoded(
                    bytes@,
                    i + 1,
                ));
                i += 1;
            },
        }
    }
    assert(result@ + Seq::<u8>::empty() =~= result@);
    result
}

/// The text that an encoded text stands for.
pub fn url_decode(s: &str) -> (r: String)
    ensures
        r@ == decoded_text(s@),
{
    from_utf8_lossy(decode_bytes(s.as_bytes()).as_slice())
}

/// The value that a pair gives for the key: the pair is split at its first equals sign.
pub open spec fn pair_value(pair: Seq<char>, key: Seq<char>) -> Option<Seq<char>> {
    match text::first_at(pair, seq!['='], 0) {
        Some(k) => if decoded_text(pair.take(k)) == key {
            Some(decoded_text(pair.skip(k + 1)))
        } else {
            None
        },
        None => None,
    }
}

/// The value of the first pair, from `i` on, that has the key.
pub open spec fn value_from(pairs: Seq<Seq<char>>, key: Seq<char>, i: int) -> Option<Seq<char>>
    decreases pairs.len() - i,
{
    if i < 0 || i >= pairs.len() {
        None
    } else if pair_value(pairs[i], key) is Some {
        pair_value(pairs[i], key)
    } else {
        value_from(pairs, key, i + 1)
    }
}

/// The value of a field of a submitted form.
pub open spec fn form_value(body: Seq<char>, key: Seq<char>) -> Option<Seq<char>> {
    value_from(parts::pieces(body, Separator::Char('&')), key, 0)
}

fn value_of_pair(pair: &str, key: &str) -> (r: Option<String>)
    ensures
        match r {
            Some(v) => pair_value(pair@, key@) == Some(v@),
            None => pair_value(pair@, key@) is None,
        },
{
    let v = chars_of(pair);
    let mut equals: Vec<char> = Vec::new();
    equals.push('=');
    assert(equals@ =~= seq!['=']);
    let k: usize = match find_text(&v, &equals, 0) {
        Some(k) => k,
        None => {
            return None;
        },
    };
    let name = text_between(&v, 0, k);
    let value = text_between(&v, k + 1, v.len());
    proof {
        assert(name@ =~= pair@.take(k as int));
        assert(value@ =~= pair@.skip(k + 1));
    }
    if same_text(url_decode(name.as_str()).as_str(), key) {
        Some(url_decode(value.as_str()))
    } else {
        None
    }
}

/// The value of a field of a submitted form.
pub fn parse_form_value(body: &str, key: &str) -> (r: Option<String>)
    ensures
        match r {
            Some(v) => form_value(body@, key@) == Some(v@),
            None => form_value(body@, key@) is None,
        },
{
    let pairs = split(body, Separator::Char('&'));
    let ghost all = parts::texts(pairs@);
    let mut i: usize = 0;
    while i < pairs.len()
        invariant
            i <= pairs@.len(),
            all == parts::texts(pairs@),
            all == parts::pieces(body@, Separator::Char('&')),
            value_from(all, key@, 0) == value_from(all, key@, i as int),
        decreases pairs@.len() - i,
    {
        assert(all[i as int] == pairs@[i as int]@);
        if let Some(v) = value_of_pair(pairs[i].as_str(), key) {
            return Some(v);
        }
        i += 1;
    }
    None
}

/// A character as it stands in a page.
pub open spec fn escaped_char(c: char) -> Seq<char> {
    if c == '&' {
        "&amp;"@
    } else if c == '"' {
        "&quot;"@
    } else if c == '<' {
        "&lt;"@
    } else if c == '>' {
        "&gt;"@
    } else {
        seq![c]
    }
}

/// A text as it stands in a page.
pub open spec fn escaped(s: Seq<char>) -> Seq<char>
    decreases s.len(),
{
    if s.len() == 0 {
        Seq::empty()
    } else {
        escaped(s.drop_last()) + escaped_char(s.last())
    }
}

/// The text as it stands in a page.
pub fn html_escape(s: &str) -> (r: String)
    ensures
        r@ == escaped(s@),
{
    let v = chars_of(s);
    let mut out: String = String::new();
    let mut i: usize = 0;
    proof {
        assert(s@.take(0) =~= Seq::empty());
        assert(out@ =~= Seq::empty());
    }
    while i < v.len()
        invariant
            i <= v@.len(),
            v@ == s@,
            out@ == escaped(s@.take(i as int)),
        decreases v@.len() - i,
    {
        let c: char = v[i];
        let ghost before = out@;
        proof {
            assert(s@.take(i + 1).drop_last() =~= s@.take(i as int));
            assert(s@.take(i + 1).last() == c);
        }
        if c == '&' {
            out.push_str("&amp;");
        } else if c == '"' {
            out.push_str("&quot;");
        } else if c == '<' {
            out.push_str("&lt;");
        } else if c == '>' {
            out.push_str("&gt;");
        } else {
            out.push(c);
            assert(out@ =~= before + seq![c]);
        }
        i += 1;
    }
    assert(s@.take(i as int) =~= s@);
    out
}

/// An escaped text holds nothing that ends an attribute or starts a tag.
pub proof fn escaped_text_is_harmless(s: Seq<char>)
    ensures
        forall|i: int|
            0 <= i < escaped(s).len() ==> (#[trigger] escaped(s)[i]) != '"' && escaped(s)[i] != '<'
                && escaped(s)[i] != '>',
    decreases s.len(),
{
    reveal_strlit("&amp;");
    reveal_strlit("&quot;");
    reveal_strlit("&lt;");
    reveal_strlit("&gt;");
    if s.len() > 0 {
        escaped_text_is_harmless(s.drop_last());
        let head = escaped(s.drop_last());
        let tail = escaped_char(s.last());
        assert forall|i: int| 0 <= i < escaped(s).len() implies (#[trigger] escaped(s)[i]) != '"'
            && escaped(s)[i] != '<' && escaped(s)[i] != '>' by {
            if i < head.len() {
                assert(escaped(s)[i] == head[i]);
            } else {
                assert(escaped(s)[i] == tail[i - head.len()]);
            }
        }
    }
}

/// The digit for a number below sixteen.
pub open spec fn hex_digit(n: u8) -> u8 {
    if n < 10 {
        (0x30 + n) as u8
    } else {
        (0x41 + n - 10) as u8
    }
}

/// The bytes with each written as a percent sign and two hexadecimal digits.
pub open spec fn percent_encoded(b: Seq<u8>) -> Seq<u8>
    decreases b.len(),
{
    if b.len() == 0 {
        Seq::empty()
    } else {
        seq![0x25u8, hex_digit(b[0] / 16), hex_digit(b[0] % 16)] + percent_encoded(b.skip(1))
    }
}

proof fn lemma_decoded_suffix(a: Seq<u8>, b: Seq<u8>, i: int)
    requires
        0 <= i,
    ensures
        decoded(a + b, a.len() + i) == decoded(b, i),
    decreases b.len() - i,
{
    if i < b.len() {
        assert((a + b)[a.len() + i] == b[i]);
        if i + 2 < b.len() {
            assert((a + b)[a.len() + i + 1] == b[i + 1]);
            assert((a + b)[a.len() + i + 2] == b[i + 2]);
            lemma_decoded_suffix(a, b, i + 3);
        }
        lemma_decoded_suffix(a, b, i + 1);
    }
}

/// Bytes that were encoded come out again.
pub proof fn encoded_bytes_come_out_again(b: Seq<u8>)
    ensures
        decoded(percent_encoded(b), 0) == b,
    decreases b.len(),
{
    if b.len() == 0 {
        assert(b =~= Seq::empty());
    } else {
        let head = seq![0x25u8, hex_digit(b[0] / 16), hex_digit(b[0] % 16)];
        let rest = percent_encoded(b.skip(1));
        encoded_bytes_come_out_again(b.skip(1));
        lemma_decoded_suffix(head, rest, 0);
        assert((head + rest)[0] == 0x25);
        assert((head + rest)[1] == hex_digit(b[0] / 16));
        assert((head + rest)[2] == hex_digit(b[0] % 16));
        assert(hex_byte(hex_digit(b[0] / 16), hex_digit(b[0] % 16)) == Some(b[0]));
        assert(decoded(head + rest, 0) =~= seq![b[0]] + b.skip(1));
        assert(seq![b[0]] + b.skip(1) =~= b);
    }
}

/// The body of a request is all that stands behind the first empty line.
pub proof fn body_follows_the_first_empty_line(head: Seq<char>, body: Seq<char>)
    requires
        forall|i: int|
            0 <= i < head.len() ==> !text::occurs_at(
                head + seq!['\r', '\n', '\r', '\n'] + body,
                seq!['\r', '\n', '\r', '\n'],
                i,
            ),
    ensures
        body_of(head + seq!['\r', '\n', '\r', '\n'] + body) == body,
{
    let mark = seq!['\r', '\n', '\r', '\n'];
    let s = head + mark + body;
    reveal_strlit("\r\n\r\n");
    assert("\r\n\r\n"@ =~= mark);
    text::lemma_first_at(s, mark, 0);
    assert(s.subrange(head.len() as int, head.len() as int + 4) =~= mark);
    assert(text::occurs_at(s, mark, head.len() as int));
    match text::first_at(s, mark, 0) {
        Some(k) => {
            assert(k >= head.len());
            assert(k <= head.len());
            assert(s.skip(k + 4) =~= body);
        },
        None => {
            assert(false);
        },
    }
}

/// Bytes that neither a percent sign nor a plus sign stands among are decoded to themselves.
pub proof fn plain_bytes_stay(b: Seq<u8>, i: int)
    requires
        0 <= i <= b.len(),
        forall|j: int| i <= j < b.len() ==> #[trigger] b[j] != 0x25 && b[j] != 0x2b,
    ensures
        decoded(b, i) == b.skip(i),
    decreases b.len() - i,
{
    if i < b.len() {
        plain_bytes_stay(b, i + 1);
        assert(seq![b[i]] + b.skip(i + 1) =~= b.skip(i));
    } else {
        assert(b.skip(i) =~= Seq::empty());
    }
}

/// A plus sign stands for a blank.
pub proof fn plus_is_a_blank(a: Seq<u8>, b: Seq<u8>)
    requires
        forall|j: int| 0 <= j < a.len() ==> #[trigger] a[j] != 0x25 && a[j] != 0x2b,
    ensures
        decoded(a + seq![0x2bu8] + b, 0) == a + seq![0x20u8] + decoded(b, 0),
    decreases a.len(),
{
    let s = a + seq![0x2bu8] + b;
    if a.len() == 0 {
        lemma_decoded_suffix(seq![0x2bu8], b, 0);
        assert(s =~= seq![0x2bu8] + b);
        assert(decoded(s, 0) =~= a + seq![0x20u8] + decoded(b, 0));
    } else {
        let rest = a.skip(1);
        assert forall|j: int| 0 <= j < rest.len() implies #[trigger] rest[j] != 0x25 && rest[j]
            != 0x2b by {
            assert(a[j + 1] != 0x25 && a[j + 1] != 0x2b);
        }
        plus_is_a_blank(rest, b);
        let t = rest + seq![0x2bu8] + b;
        assert(s =~= seq![a[0]] + t);
        lemma_decoded_suffix(seq![a[0]], t, 0);
        assert(decoded(s, 0) =~= a + seq![0x20u8] + decoded(b, 0));
    }
}

proof fn lemma_pair(name: Seq<char>, value: Seq<char>, key: Seq<char>)
    requires
        !name.contains('='),
    ensures
        pair_value(name + seq!['='] + value, key) == if decoded_text(name) == key {
            Some(decoded_text(value))
        } else {
            None
        },
{
    let p = name + seq!['='] + value;
    let eq = seq!['='];
    text::lemma_first_at(p, eq, 0);
    assert(p.subrange(name.len() as int, name.len() as int + 1) =~= eq);
    assert(text::occurs_at(p, eq, name.len() as int));
    match text::first_at(p, eq, 0) {
        Some(k) => {
            if k < name.len() {
                assert(p.subrange(k, k + 1)[0] == name[k]);
                assert(name.contains(name[k]));
            }
            assert(k == name.len());
            assert(p.take(k) =~= name);
            assert(p.skip(k + 1) =~= value);
        },
        None => {
            assert(false);
        },
    }
}

/// In a form, fields stand one behind the other: the value of the first field with the name is
/// found, and the other fields are passed over. Names and values are decoded.
pub proof fn first_field_of_the_name_is_found(
    name: Seq<char>,
    value: Seq<char>,
    rest: Seq<char>,
    key: Seq<char>,
)
    requires
        !name.contains('='),
        !name.contains('&'),
        !value.contains('&'),
    ensures
        form_value(name + seq!['='] + value + seq!['&'] + rest, key) == if decoded_text(name)
            == key {
            Some(decoded_text(value))
        } else {
            form_value(rest, key)
        },
        form_value(name + seq!['='] + value, key) == if decoded_text(name) == key {
            Some(decoded_text(value))
        } else {
            None
        },
{
    let pair = name + seq!['='] + value;
    assert forall|i: int| 0 <= i < pair.len() implies pair[i] != '&' by {
        if i < name.len() {
            assert(name.contains(name[i]));
        } else if i > name.len() {
            assert(value.contains(value[i - name.len() - 1]));
        }
    }
    lemma_pair(name, value, key);
    parts::pieces_of_one(pair, '&');
    parts::pieces_of_joined(pair, '&', rest);
    let p = parts::pieces(rest, Separator::Char('&'));
    let q = seq![pair] + p;
    assert(q[0] == pair);
    lemma_value_behind(pair, p, key, 0);
    assert(seq![pair][0] == pair);
    reveal_with_fuel(value_from, 2);
}

proof fn lemma_value_behind(pair: Seq<char>, p: Seq<Seq<char>>, key: Seq<char>, i: int)
    requires
        0 <= i,
    ensures
        value_from(seq![pair] + p, key, i + 1) == value_from(p, key, i),
    decreases p.len() - i,
{
    if i < p.len() {
        assert((seq![pair] + p)[i + 1] == p[i]);
        lemma_value_behind(pair, p, key, i + 1);
    }
}

proof fn lemma_escaped_parts(a: Seq<char>, b: Seq<char>)
    ensures
        escaped(a + b) == escaped(a) + escaped(b),
    decreases b.len(),
{
    if b.len() == 0 {
        assert(a + b =~= a);
        assert(escaped(a) + escaped(b) =~= escaped(a));
    } else {
        assert((a + b).drop_last() =~= a + b.drop_last());
        lemma_escaped_parts(a, b.drop_last());
        assert(escaped(a + b) =~= escaped(a) + escaped(b));
    }
}

/// Each character is escaped by itself: the four that mean something in a page are written by
/// name, and every other stays.
pub proof fn characters_are_escaped_one_by_one(a: Seq<char>, c: char, b: Seq<char>)
    ensures
        escaped(a + seq![c] + b) == escaped(a) + (if c == '&' {
            seq!['&', 'a', 'm', 'p', ';']
        } else if c == '"' {
            seq!['&', 'q', 'u', 'o', 't', ';']
        } else if c == '<' {
            seq!['&', 'l', 't', ';']
        } else if c == '>' {
            seq!['&', 'g', 't', ';']
        } else {
            seq![c]
        }) + escaped(b),
        escaped(Seq::empty()) == Seq::<char>::empty(),
{
    reveal_strlit("&amp;");
    reveal_strlit("&quot;");
    reveal_strlit("&lt;");
    reveal_strlit("&gt;");
    lemma_escaped_parts(a + seq![c], b);
    lemma_escaped_parts(a, seq![c]);
    assert(seq![c].drop_last() =~= Seq::empty());
    assert(escaped(Seq::<char>::empty()) =~= Seq::empty());
    assert(escaped(seq![c]) =~= escaped_char(c));
    assert("&amp;"@ =~= seq!['&', 'a', 'm', 'p', ';']);
    assert("&quot;"@ =~= seq!['&', 'q', 'u', 'o', 't', ';']);
    assert("&lt;"@ =~= seq!['&', 'l', 't', ';']);
    assert("&gt;"@ =~= seq!['&', 'g', 't', ';']);
}

/// A percent sign stands for a byte where two digits in base sixteen follow it, in either case of
/// the letters; a plus sign in place of the first counts for nothing, and anything else is no byte.
pub proof fn two_digits_stand_for_a_byte(a: u8, b: u8, high: u8, low: u8)
    requires
        high < 16,
        low < 16,
    ensures
        (a == hex_digit(high) || (high >= 10 && a == hex_digit(high) + 32)) && (b == hex_digit(low)
            || (low >= 10 && b == hex_digit(low) + 32)) ==> hex_byte(a, b) == Some(
            (16 * high + low) as u8,
        ),
        b == hex_digit(low) ==> hex_byte(0x2b, b) == Some(low),
        a < 0x2b || a > 0x66 || b < 0x30 || b > 0x66 ==> hex_byte(a, b) is None,
{
}

} // verus!
