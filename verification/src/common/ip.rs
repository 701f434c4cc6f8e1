//! Texts of IP addresses.

use vstd::prelude::*;
use crate::parts;
use crate::parts::{split, Separator};
use crate::text;
use crate::text::{chars_of, find_text, parse_number, text_between};

verus! {

/// The number that a part of an IPv4 address stands for: at most three decimal digits, without a
/// zero in front of others, and not above 255.
pub open spec fn octet_of(s: Seq<char>) -> Option<u8> {
    if 1 <= s.len() <= 3 && (s.len() == 1 || s[0] != '0') {
        match text::digits_value(s) {
            Some(n) => if n <= 255 {
                Some(n as u8)
            } else {
                None
            },
            None => None,
        }
    } else {
        None
    }
}

/// The octets of an IPv4 address: four numbers with dots between them.
pub open spec fn v4_of(s: Seq<char>) -> Option<Seq<u8>> {
    let p = parts::pieces(s, Separator::Char('.'));
    if p.len() == 4 && octet_of(p[0]) is Some && octet_of(p[1]) is Some && octet_of(p[2]) is Some
        && octet_of(p[3]) is Some {
        Some(
            seq![
                octet_of(p[0])->Some_0,
                octet_of(p[1])->Some_0,
                octet_of(p[2])->Some_0,
                octet_of(p[3])->Some_0,
            ],
        )
    } else {
        None
    }
}

/// The value of a hexadecimal digit.
pub open spec fn hex_digit(c: char) -> Option<u32> {
    if '0' <= c && c <= '9' {
        Some((c as u32 - '0' as u32) as u32)
    } else if 'a' <= c && c <= 'f' {
        Some((c as u32 - 'a' as u32 + 10) as u32)
    } else if 'A' <= c && c <= 'F' {
        Some((c as u32 - 'A' as u32 + 10) as u32)
    } else {
        None
    }
}

/// The number that hexadecimal digits stand for; `None` where there is another character.
pub open spec fn hex_value(s: Seq<char>) -> Option<nat>
    decreases s.len(),
{
    if s.len() == 0 {
        Some(0)
    } else {
        match (hex_value(s.drop_last()), hex_digit(s.last())) {
            (Some(high), Some(d)) => Some(16 * high + d as nat),
            _ => None,
        }
    }
}

/// The number that a part of an IPv6 address stands for: one to four hexadecimal digits.
pub open spec fn group_of(s: Seq<char>) -> Option<u16> {
    if 1 <= s.len() <= 4 {
        match hex_value(s) {
            Some(n) => Some(n as u16),
            None => None,
        }
    } else {
        None
    }
}

/// The groups that parts stand for, one each.
pub open spec fn groups_of(p: Seq<Seq<char>>) -> Option<Seq<u16>>
    decreases p.len(),
{
    if p.len() == 0 {
        Some(Seq::empty())
    } else {
        match (groups_of(p.drop_last()), group_of(p.last())) {
            (Some(before), Some(g)) => Some(before.push(g)),
            _ => None,
        }
    }
}

/// The two groups of an IPv4 address.
pub open spec fn two_groups(octets: Seq<u8>) -> Seq<u16> {
    seq![
        (256 * octets[0] + octets[1]) as u16,
        (256 * octets[2] + octets[3]) as u16,
    ]
}

/// The groups that parts stand for: one each, but for an IPv4 address in the last place, which
/// stands for two.
pub open spec fn ending_of(p: Seq<Seq<char>>) -> Option<Seq<u16>> {
    if p.len() == 0 {
        Some(Seq::empty())
    } else {
        match v4_of(p.last()) {
            Some(octets) => match groups_of(p.drop_last()) {
                Some(before) => Some(before + two_groups(octets)),
                None => None,
            },
            None => groups_of(p),
        }
    }
}

/// The parts between colons; an empty text has none.
pub open spec fn side_of(s: Seq<char>) -> Seq<Seq<char>> {
    if s.len() == 0 {
        Seq::empty()
    } else {
        parts::pieces(s, Separator::Char(':'))
    }
}

/// As many groups of zeros.
pub open spec fn zero_groups(n: nat) -> Seq<u16> {
    Seq::new(n, |i: int| 0u16)
}

/// The groups of an IPv6 address: eight with colons between them, where two colons in a row may
/// stand, once, for one or more groups of zeros. The last two may be written as an IPv4 address.
pub open spec fn v6_of(s: Seq<char>) -> Option<Seq<u16>> {
    match text::first_at(s, seq![':', ':'], 0) {
        Some(k) => match (groups_of(side_of(s.take(k))), ending_of(side_of(s.skip(k + 2)))) {
            (Some(head), Some(tail)) => if head.len() + tail.len() <= 7 {
                Some(head + zero_groups((8 - head.len() - tail.len()) as nat) + tail)
            } else {
                None
            },
            _ => None,
        },
        None => match ending_of(side_of(s)) {
            Some(groups) => if groups.len() == 8 {
                Some(groups)
            } else {
                None
            },
            None => None,
        },
    }
}

fn parse_octet(s: &str) -> (r: Option<u8>)
    ensures
        r == octet_of(s@),
{
    let v = chars_of(s);
    let n: usize = v.len();
    if n == 0 || n > 3 || (n > 1 && v[0] == '0') {
        return None;
    }
    if v[0] == '+' {
        proof {
            lemma_sign_is_no_digit(s@);
        }
        return None;
    }
    match parse_number(s, 255) {
        Some(x) => Some(x as u8),
        None => None,
    }
}

proof fn lemma_sign_is_no_digit(s: Seq<char>)
    requires
        s.len() > 0,
        s[0] == '+',
    ensures
        text::digits_value(s) is None,
    decreases s.len(),
{
    if s.len() > 1 {
        lemma_sign_is_no_digit(s.drop_last());
    }
}

/// The octets of an IPv4 address, where the text is one.
pub fn parse_v4(s: &str) -> (r: Option<[u8; 4]>)
    ensures
        match r {
            Some(octets) => v4_of(s@) == Some(octets@),
            None => v4_of(s@) is None,
        },
{
    let p = split(s, Separator::Char('.'));
    let ghost all = parts::pieces(s@, Separator::Char('.'));
    if p.len() != 4 {
        return None;
    }
    proof {
        assert(all[0] == p@[0]@ && all[1] == p@[1]@ && all[2] == p@[2]@ && all[3] == p@[3]@);
    }
    match (
        parse_octet(p[0].as_str()),
        parse_octet(p[1].as_str()),
        parse_octet(p[2].as_str()),
        parse_octet(p[3].as_str()),
    ) {
        (Some(a), Some(b), Some(c), Some(d)) => {
            let octets: [u8; 4] = [a, b, c, d];
            assert(octets@ =~= seq![a, b, c, d]);
            Some(octets)
        },
        _ => None,
    }
}

fn parse_hex_digit(c: char) -> (r: Option<u32>)
    ensures
        r == hex_digit(c),
        r matches Some(d) ==> d < 16,
{
    if '0' <= c && c <= '9' {
        Some(c as u32 - '0' as u32)
    } else if 'a' <= c && c <= 'f' {
        Some(c as u32 - 'a' as u32 + 10)
    } else if 'A' <= c && c <= 'F' {
        Some(c as u32 - 'A' as u32 + 10)
    } else {
        None
    }
}

proof fn lemma_hex_ends(s: Seq<char>, i: int)
    requires
        0 <= i <= s.len(),
        hex_value(s.take(i)) is None,
    ensures
        hex_value(s) is None,
    decreases s.len(),
{
    if i == s.len() {
        assert(s.take(i) =~= s);
    } else {
        assert(s.drop_last().take(i) =~= s.take(i));
        lemma_hex_ends(s.drop_last(), i);
    }
}

fn parse_group(s: &str) -> (r: Option<u16>)
    ensures
        r == group_of(s@),
{
    let v = chars_of(s);
    let n: usize = v.len();
    if n == 0 || n > 4 {
        return None;
    }
    let mut x: u32 = 0;
    let mut limit: u32 = 1;
    let mut i: usize = 0;
    assert(s@.take(0) =~= Seq::<char>::empty());
    while i < n
        invariant
            i <= n <= 4,
            n == v@.len(),
            v@ == s@,
            hex_value(s@.take(i as int)) == Some(x as nat),
            x < limit,
            limit == if i == 0 {
                1u32
            } else if i == 1 {
                16u32
            } else if i == 2 {
                256u32
            } else if i == 3 {
                4096u32
            } else {
                65536u32
            },
        decreases n - i,
    {
        proof {
            assert(s@.take(i + 1).drop_last() =~= s@.take(i as int));
            assert(s@.take(i + 1).last() == v@[i as int]);
        }
        match parse_hex_digit(v[i]) {
            Some(d) => {
                x = 16 * x + d;
                limit = 16 * limit;
            },
            None => {
                proof {
                    lemma_hex_ends(s@, i + 1);
                }
                return None;
            },
        }
        i += 1;
    }
    assert(s@.take(i as int) =~= s@);
    Some(x as u16)
}

proof fn lemma_groups_end(p: Seq<Seq<char>>, i: int)
    requires
        0 <= i <= p.len(),
        groups_of(p.take(i)) is None,
    ensures
        groups_of(p) is None,
    decreases p.len(),
{
    if i == p.len() {
        assert(p.take(i) =~= p);
    } else {
        assert(p.drop_last().take(i) =~= p.take(i));
        lemma_groups_end(p.drop_last(), i);
    }
}

/// Reads the first `n` parts as groups.
fn parse_groups(p: &Vec<String>, n: usize) -> (r: Option<Vec<u16>>)
    requires
        n <= p@.len(),
    ensures
        match r {
            Some(g) => groups_of(parts::texts(p@).take(n as int)) == Some(g@),
            None => groups_of(parts::texts(p@).take(n as int)) is None,
        },
{
    let ghost all = parts::texts(p@).take(n as int);
    let mut out: Vec<u16> = Vec::new();
    let mut i: usize = 0;
    assert(all.take(0) =~= Seq::<Seq<char>>::empty());
    assert(out@ =~= Seq::<u16>::empty());
    while i < n
        invariant
            i <= n <= p@.len(),
            all == parts::texts(p@).take(n as int),
            groups_of(all.take(i as int)) == Some(out@),
        decreases n - i,
    {
        proof {
            assert(all.take(i + 1).drop_last() =~= all.take(i as int));
            assert(all.take(i + 1).last() == p@[i as int]@);
        }
        match parse_group(p[i].as_str()) {
            Some(g) => out.push(g),
            None => {
                proof {
                    lemma_groups_end(all, i + 1);
                }
                return None;
            },
        }
        i += 1;
    }
    assert(all.take(i as int) =~= all);
    Some(out)
}

fn parse_ending(p: &Vec<String>) -> (r: Option<Vec<u16>>)
    ensures
        match r {
            Some(g) => ending_of(parts::texts(p@)) == Some(g@),
            None => ending_of(parts::texts(p@)) is None,
        },
{
    let n: usize = p.len();
    let ghost all = parts::texts(p@);
    assert(all.take(n as int) =~= all);
    if n == 0 {
        let r: Vec<u16> = Vec::new();
        assert(r@ =~= Seq::<u16>::empty());
        return Some(r);
    }
    proof {
        assert(all.last() == p@[n - 1]@);
        assert(all.take(n - 1) =~= all.drop_last());
    }
    match parse_v4(p[n - 1].as_str()) {
        Some(o) => {
            match parse_groups(p, n - 1) {
                Some(g) => {
                    let mut g = g;
                    let ghost before = g@;
                    g.push(o[0] as u16 * 256 + o[1] as u16);
                    g.push(o[2] as u16 * 256 + o[3] as u16);
                    assert(g@ =~= before + two_groups(o@));
                    Some(g)
                },
                None => None,
            }
        },
        None => parse_groups(p, n),
    }
}

fn split_side(s: &str) -> (r: Vec<String>)
    ensures
        parts::texts(r@) == side_of(s@),
{
    if s.is_empty() {
        let r: Vec<String> = Vec::new();
        assert(parts::texts(r@) =~= side_of(s@));
        r
    } else {
        split(s, Separator::Char(':'))
    }
}

fn eight(g: &Vec<u16>) -> (r: [u16; 8])
    requires
        g@.len() == 8,
    ensures
        r@ == g@,
{
    let r: [u16; 8] = [g[0], g[1], g[2], g[3], g[4], g[5], g[6], g[7]];
    assert(r@ =~= g@);
    r
}

/// The groups of an IPv6 address, where the text is one.
pub fn parse_v6(s: &str) -> (r: Option<[u16; 8]>)
    ensures
        match r {
            Some(groups) => v6_of(s@) == Some(groups@),
            None => v6_of(s@) is None,
        },
{
    let v = chars_of(s);
    let size: usize = v.len();
    let mut colons: Vec<char> = Vec::new();
    colons.push(':');
    colons.push(':');
    assert(colons@ =~= seq![':', ':']);
    let k: usize = match find_text(&v, &colons, 0) {
        Some(k) => k,
        None => {
            return match parse_ending(&split_side(s)) {
                Some(g) => if g.len() == 8 {
                    Some(eight(&g))
                } else {
                    None
                },
                None => None,
            };
        },
    };
    proof {
        text::lemma_first_at(s@, colons@, 0);
    }
    let before = text_between(&v, 0, k);
    let after = text_between(&v, k + 2, size);
    proof {
        assert(before@ =~= s@.take(k as int));
        assert(after@ =~= s@.skip(k + 2));
    }
    let front = split_side(before.as_str());
    let ghost fronts = parts::texts(front@);
    assert(fronts.take(front@.len() as int) =~= fronts);
    let head = match parse_groups(&front, front.len()) {
        Some(g) => g,
        None => {
            return None;
        },
    };
    let tail = match parse_ending(&split_side(after.as_str())) {
        Some(g) => g,
        None => {
            return None;
        },
    };
    if head.len() > 7 || tail.len() > 7 - head.len() {
        return None;
    }
    let mut all: Vec<u16> = head;
    let ghost first = all@;
    let zeros: usize = 8 - all.len() - tail.len();
    let mut i: usize = 0;
    assert(first + zero_groups(0) =~= first);
    while i < zeros
        invariant
            i <= zeros,
            all@ == first + zero_groups(i as nat),
        decreases zeros - i,
    {
        all.push(0);
        i += 1;
        assert(all@ =~= first + zero_groups(i as nat));
    }
    all.extend_from_slice(tail.as_slice());
    assert(all@ =~= first + zero_groups(zeros as nat) + tail@);
    Some(eight(&all))
}

proof fn lemma_octet(n: u8)
    ensures
        octet_of(text::digits(n as nat)) == Some(n),
        !text::digits(n as nat).contains('.'),
        !text::digits(n as nat).contains(':'),
{
    let d = text::digits(n as nat);
    text::decimal_reads_back(n as nat);
    reveal_with_fuel(text::digits, 4);
    assert(d.len() <= 3);
    assert(d.len() == 1 || d[0] != '0');
    assert forall|i: int| 0 <= i < d.len() implies d[i] != '.' && d[i] != ':' by {
        assert(text::digit_value(d[i]) is Some);
    }
}

/// Four numbers with dots between them are the address of these four bytes.
pub proof fn dotted_address_reads_back(a: u8, b: u8, c: u8, d: u8)
    ensures
        v4_of(
            text::digits(a as nat) + seq!['.'] + (text::digits(b as nat) + seq!['.'] + (text::digits(
                c as nat,
            ) + seq!['.'] + text::digits(d as nat))),
        ) == Some(seq![a, b, c, d]),
{
    let w = text::digits(a as nat);
    let x = text::digits(b as nat);
    let y = text::digits(c as nat);
    let z = text::digits(d as nat);
    lemma_octet(a);
    lemma_octet(b);
    lemma_octet(c);
    lemma_octet(d);
    parts::pieces_of_one(z, '.');
    parts::pieces_of_joined(y, '.', z);
    parts::pieces_of_joined(x, '.', y + seq!['.'] + z);
    parts::pieces_of_joined(w, '.', x + seq!['.'] + (y + seq!['.'] + z));
    let p = parts::pieces(
        w + seq!['.'] + (x + seq!['.'] + (y + seq!['.'] + z)),
        Separator::Char('.'),
    );
    assert(p =~= seq![w, x, y, z]);
}

/// A number above 255, or one with a zero before it, is no part of an address.
pub proof fn part_out_of_range_is_refused(n: nat, s: Seq<char>)
    requires
        n > 255,
        s.len() > 0,
    ensures
        octet_of(text::digits(n)) is None,
        octet_of(seq!['0'] + s) is None,
        octet_of(Seq::empty()) is None,
{
    text::decimal_reads_back(n);
    assert((seq!['0'] + s)[0] == '0');
}

/// A digit of a number in base sixteen.
pub open spec fn hex_char(n: int) -> char {
    if n < 10 {
        ('0' as u32 + n) as char
    } else {
        ('a' as u32 + n - 10) as char
    }
}

/// A group of an address in four digits.
pub open spec fn hex_group(g: u16) -> Seq<char> {
    seq![
        hex_char(g as int / 4096),
        hex_char(g as int / 256 % 16),
        hex_char(g as int / 16 % 16),
        hex_char(g as int % 16),
    ]
}

/// Groups with a colon between any two of them.
pub open spec fn group_text(gs: Seq<u16>) -> Seq<char>
    decreases gs.len(),
{
    if gs.len() == 0 {
        Seq::empty()
    } else if gs.len() == 1 {
        hex_group(gs[0])
    } else {
        hex_group(gs[0]) + seq![':'] + group_text(gs.skip(1))
    }
}

proof fn lemma_hex_char(n: int)
    requires
        0 <= n < 16,
    ensures
        hex_digit(hex_char(n)) == Some(n as u32),
        hex_char(n) != ':',
        hex_char(n) != '.',
{
}

proof fn lemma_hex_group(g: u16)
    ensures
        group_of(hex_group(g)) == Some(g),
        !hex_group(g).contains(':'),
        !hex_group(g).contains('.'),
        v4_of(hex_group(g)) is None,
{
    let h = hex_group(g);
    let a = g as int / 4096;
    let b = g as int / 256 % 16;
    let c = g as int / 16 % 16;
    let d = g as int % 16;
    lemma_hex_char(a);
    lemma_hex_char(b);
    lemma_hex_char(c);
    lemma_hex_char(d);
    let h3 = h.drop_last();
    let h2 = h3.drop_last();
    let h1 = h2.drop_last();
    let h0 = h1.drop_last();
    assert(h0.len() == 0);
    assert(hex_value(h0) == Some(0nat));
    assert(hex_value(h1) == Some(a as nat));
    assert(hex_value(h2) == Some((16 * a + b) as nat));
    assert(hex_value(h3) == Some((16 * (16 * a + b) + c) as nat));
    assert(hex_value(h) == Some((16 * (16 * (16 * a + b) + c) + d) as nat));
    assert(16 * (16 * (16 * a + b) + c) + d == g);
    assert forall|i: int| 0 <= i < h.len() implies h[i] != ':' && h[i] != '.' by {}
    parts::pieces_of_one(h, '.');
}

proof fn lemma_groups_prepend(x: Seq<char>, p: Seq<Seq<char>>)
    ensures
        groups_of(seq![x] + p) == match (group_of(x), groups_of(p)) {
            (Some(g), Some(gs)) => Some(seq![g] + gs),
            _ => None,
        },
    decreases p.len(),
{
    let q = seq![x] + p;
    if p.len() == 0 {
        assert(q.drop_last() =~= Seq::empty());
        assert(q.last() == x);
        assert(groups_of(Seq::<Seq<char>>::empty()) == Some(Seq::<u16>::empty()));
        if group_of(x) is Some {
            let g = group_of(x)->Some_0;
            assert(Seq::<u16>::empty().push(g) =~= seq![g] + Seq::<u16>::empty());
        }
    } else {
        assert(q.drop_last() =~= seq![x] + p.drop_last());
        assert(q.last() == p.last());
        lemma_groups_prepend(x, p.drop_last());
        if group_of(x) is Some && groups_of(p.drop_last()) is Some && group_of(p.last()) is Some {
            let g = group_of(x)->Some_0;
            let gs = groups_of(p.drop_last())->Some_0;
            let l = group_of(p.last())->Some_0;
            assert((seq![g] + gs).push(l) =~= seq![g] + gs.push(l));
        }
    }
}

proof fn lemma_group_text(gs: Seq<u16>)
    requires
        gs.len() > 0,
    ensures
        groups_of(side_of(group_text(gs))) == Some(gs),
        ending_of(side_of(group_text(gs))) == Some(gs),
        group_text(gs).len() > 0,
        group_text(gs)[0] != ':',
        group_text(gs).last() != ':',
        forall|i: int|
            0 <= i < group_text(gs).len() - 1 ==> !(#[trigger] group_text(gs)[i] == ':'
                && group_text(gs)[i + 1] == ':'),
    decreases gs.len(),
{
    let h = hex_group(gs[0]);
    let t = group_text(gs);
    lemma_hex_group(gs[0]);
    lemma_hex_char(gs[0] as int / 4096);
    lemma_hex_char(gs[0] as int % 16);
    if gs.len() == 1 {
        parts::pieces_of_one(h, ':');
        let p = seq![h];
        assert(p.drop_last() =~= Seq::empty());
        assert(groups_of(Seq::<Seq<char>>::empty()) == Some(Seq::<u16>::empty()));
        assert(Seq::<u16>::empty().push(gs[0]) =~= gs);
        assert(p.last() == h);
        assert forall|i: int| 0 <= i < t.len() - 1 implies !(#[trigger] t[i] == ':' && t[i + 1]
            == ':') by {
            assert(h.contains(h[i]));
        }
    } else {
        let rest = gs.skip(1);
        let u = group_text(rest);
        lemma_group_text(rest);
        parts::pieces_of_joined(h, ':', u);
        let p = parts::pieces(u, Separator::Char(':'));
        lemma_groups_prepend(h, p);
        assert(seq![gs[0]] + rest =~= gs);
        assert(side_of(u) == p);
        let q = seq![h] + p;
        assert(parts::pieces(t, Separator::Char(':')) == q);
        lemma_ending(p);
        lemma_ending(q);
        assert(q.last() == p.last());
        assert(t[0] == h[0]);
        assert(t.last() == u.last());
        assert forall|i: int| 0 <= i < t.len() - 1 implies !(#[trigger] t[i] == ':' && t[i + 1]
            == ':') by {
            if i < 4 {
                assert(h.contains(h[i]));
            } else if i == 4 {
                assert(t[5] == u[0]);
            } else {
                assert(t[i] == u[i - 5]);
                assert(t[i + 1] == u[i - 5 + 1]);
            }
        }
    }
}

proof fn lemma_ending(p: Seq<Seq<char>>)
    requires
        p.len() > 0,
        groups_of(p) is Some,
    ensures
        ending_of(p) == groups_of(p),
{
    let l = p.last();
    assert(group_of(l) is Some);
    if l.contains('.') {
        let i = choose|i: int| 0 <= i < l.len() && l[i] == '.';
        lemma_no_hex(l, i);
    }
    parts::pieces_of_one(l, '.');
}

proof fn lemma_no_hex(s: Seq<char>, i: int)
    requires
        0 <= i < s.len(),
        hex_digit(s[i]) is None,
    ensures
        hex_value(s) is None,
    decreases s.len(),
{
    if i < s.len() - 1 {
        assert(s.drop_last()[i] == s[i]);
        lemma_no_hex(s.drop_last(), i);
    }
}

/// Eight groups with colons between them are the address of these groups.
pub proof fn grouped_address_reads_back(gs: Seq<u16>)
    requires
        gs.len() == 8,
    ensures
        v6_of(group_text(gs)) == Some(gs),
{
    let t = group_text(gs);
    let mark = seq![':', ':'];
    lemma_group_text(gs);
    text::lemma_first_at(t, mark, 0);
    if text::first_at(t, mark, 0) is Some {
        let k = text::first_at(t, mark, 0)->Some_0;
        assert(t.subrange(k, k + 2)[0] == ':' && t.subrange(k, k + 2)[1] == ':');
        assert(t[k] == ':' && t[k + 1] == ':');
    }
}

/// Two colons stand for as many groups of zero as are missing.
pub proof fn shortened_address_is_filled_up(a: Seq<u16>, b: Seq<u16>)
    requires
        0 < a.len(),
        0 < b.len(),
        a.len() + b.len() <= 7,
    ensures
        v6_of(group_text(a) + seq![':', ':'] + group_text(b)) is Some,
        ({
            let r = v6_of(group_text(a) + seq![':', ':'] + group_text(b))->Some_0;
            &&& r.len() == 8
            &&& r.take(a.len() as int) == a
            &&& r.skip(8 - b.len()) == b
            &&& forall|i: int| a.len() <= i < 8 - b.len() ==> #[trigger] r[i] == 0
        }),
{
    let x = group_text(a);
    let y = group_text(b);
    let mark = seq![':', ':'];
    let s = x + mark + y;
    lemma_group_text(a);
    lemma_group_text(b);
    text::lemma_first_at(s, mark, 0);
    let n = x.len() as int;
    assert(s.subrange(n, n + 2) =~= mark);
    assert(text::occurs_at(s, mark, n));
    match text::first_at(s, mark, 0) {
        Some(k) => {
            if k < n {
                assert(s.subrange(k, k + 2)[0] == ':' && s.subrange(k, k + 2)[1] == ':');
                assert(s[k] == x[k]);
                if k + 1 < n {
                    assert(s[k + 1] == x[k + 1]);
                } else {
                    assert(x[k] == x.last());
                }
                assert(false);
            }
            assert(k == n);
            assert(s.take(k) =~= x);
            assert(s.skip(k + 2) =~= y);
            let r = v6_of(s)->Some_0;
            assert(r.take(a.len() as int) =~= a);
            assert(r.skip(8 - b.len()) =~= b);
        },
        None => {
            assert(false);
        },
    }
}

} // verus!
