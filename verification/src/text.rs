//! Strings as sequences of characters.

use vstd::prelude::*;

verus! {

/// `String::push`: appends the character.
pub assume_specification[ String::push ](s: &mut String, ch: char)
    ensures
        final(s)@ == old(s)@.push(ch),
;

/// `String::push_str`: appends the text.
pub assume_specification[ String::push_str ](s: &mut String, string: &str)
    ensures
        final(s)@ == old(s)@ + string@,
;

/// What `String::from_utf8_lossy` makes of the bytes.
pub uninterp spec fn lossy_utf8(bytes: Seq<u8>) -> Seq<char>;

/// `String::from_utf8_lossy`: its result is a function of the bytes, and their text where they
/// are valid UTF-8.
#[verifier::external_body]
pub(crate) fn from_utf8_lossy(bytes: &[u8]) -> (r: String)
    ensures
        r@ == lossy_utf8(bytes@),
        vstd::utf8::valid_utf8(bytes@) ==> r@ == vstd::utf8::decode_utf8(bytes@),
{
    String::from_utf8_lossy(bytes).into_owned()
}

/// `String::from_utf8`: succeeds on valid UTF-8, and gives its text.
#[verifier::external_body]
pub(crate) fn from_utf8(bytes: Vec<u8>) -> (r: Option<String>)
    ensures
        r is Some <==> vstd::utf8::valid_utf8(bytes@),
        r is Some ==> r->Some_0@ == vstd::utf8::decode_utf8(bytes@),
{
    String::from_utf8(bytes).ok()
}

/// Whether two strings hold the same text.
pub fn same_text(a: &str, b: &str) -> (r: bool)
    ensures
        r == (a@ == b@),
{
    let x: String = a.to_owned();
    let y: String = b.to_owned();
    x == y
}

/// The characters of a string.
pub fn chars_of(s: &str) -> (r: Vec<char>)
    ensures
        r@ == s@,
{
    let mut v: Vec<char> = Vec::new();
    for c in it: s.chars()
        invariant
            it.seq() == s@,
            v@ == s@.take(it.index()),
            it.index() == it.seq().len() ==> v@ == s@,
    {
        v.push(c);
        assert(v@ =~= s@.take(it.index() + 1));
        assert(it.index() + 1 == it.seq().len() ==> v@ =~= s@);
    }
    v
}

/// The string that the characters from `from` up to `to` make.
pub fn text_between(v: &Vec<char>, from: usize, to: usize) -> (r: String)
    requires
        from <= to <= v@.len(),
    ensures
        r@ == v@.subrange(from as int, to as int),
{
    let mut s: String = String::new();
    let mut i: usize = from;
    while i < to
        invariant
            from <= i <= to <= v@.len(),
            s@ == v@.subrange(from as int, i as int),
        decreases to - i,
    {
        s.push(v[i]);
        i += 1;
        assert(s@ =~= v@.subrange(from as int, i as int));
    }
    s
}

/// Whether the string holds the character.
pub fn contains_char(s: &str, c: char) -> (r: bool)
    ensures
        r == s@.contains(c),
{
    let v = chars_of(s);
    let mut i: usize = 0;
    while i < v.len()
        invariant
            i <= v@.len(),
            v@ == s@,
            forall|j: int| 0 <= j < i ==> v@[j] != c,
        decreases v@.len() - i,
    {
        if v[i] == c {
            assert(s@[i as int] == c);
            return true;
        }
        i += 1;
    }
    false
}

/// The digit for a number below ten.
pub open spec fn digit(d: nat) -> char {
    (48 + d) as char
}

/// A number in decimal digits, without leading zeros.
pub open spec fn digits(n: nat) -> Seq<char>
    decreases n,
{
    if n < 10 {
        seq![digit(n)]
    } else {
        digits(n / 10).push(digit(n % 10))
    }
}

fn digit_char(d: u64) -> (c: char)
    requires
        d < 10,
    ensures
        c == digit(d as nat),
{
    (48 + d as u8) as char
}

/// The number in decimal digits.
pub fn decimal(n: u64) -> (r: String)
    ensures
        r@ == digits(n as nat),
    decreases n,
{
    if n < 10 {
        let mut s: String = String::new();
        s.push(digit_char(n));
        assert(s@ =~= digits(n as nat));
        s
    } else {
        let mut s: String = decimal(n / 10);
        s.push(digit_char(n % 10));
        s
    }
}

/// The value of a decimal digit.
pub open spec fn digit_value(c: char) -> Option<nat> {
    if '0' <= c && c <= '9' {
        Some((c as u32 - '0' as u32) as nat)
    } else {
        None
    }
}

/// The number that decimal digits stand for; `None` where there is another character.
pub open spec fn digits_value(s: Seq<char>) -> Option<nat>
    decreases s.len(),
{
    if s.len() == 0 {
        Some(0)
    } else {
        match (digits_value(s.drop_last()), digit_value(s.last())) {
            (Some(high), Some(d)) => Some(10 * high + d),
            _ => None,
        }
    }
}

/// What reading a decimal number gives: one plus sign may come first, then at least one digit,
/// and the number must not be above `max`.
pub open spec fn number_of(s: Seq<char>, max: nat) -> Option<nat> {
    let body = if s.len() > 0 && s[0] == '+' {
        s.skip(1)
    } else {
        s
    };
    match digits_value(body) {
        Some(n) => if body.len() > 0 && n <= max {
            Some(n)
        } else {
            None
        },
        None => None,
    }
}

proof fn lemma_digits_value_grows(s: Seq<char>, i: int)
    requires
        0 <= i <= s.len(),
        digits_value(s) is Some,
    ensures
        digits_value(s.take(i)) is Some,
        digits_value(s.take(i))->Some_0 <= digits_value(s)->Some_0,
    decreases s.len(),
{
    if i == s.len() {
        assert(s.take(i) =~= s);
    } else {
        lemma_digits_value_grows(s.drop_last(), i);
        assert(s.drop_last().take(i) =~= s.take(i));
    }
}

/// Reads a decimal number of at most `max`.
pub fn parse_number(s: &str, max: u64) -> (r: Option<u64>)
    ensures
        match r {
            Some(n) => number_of(s@, max as nat) == Some(n as nat),
            None => number_of(s@, max as nat) is None,
        },
{
    let v = chars_of(s);
    let start: usize = if v.len() > 0 && v[0] == '+' {
        1
    } else {
        0
    };
    let ghost body = if s@.len() > 0 && s@[0] == '+' {
        s@.skip(1)
    } else {
        s@
    };
    assert(body =~= v@.skip(start as int));
    if start == v.len() {
        return None;
    }
    let mut n: u64 = 0;
    let mut i: usize = start;
    assert(body.take(0) =~= Seq::<char>::empty());
    while i < v.len()
        invariant
            start <= i <= v@.len(),
            body == v@.skip(start as int),
            start < v@.len(),
            digits_value(body.take(i - start)) == Some(n as nat),
            n <= max,
            number_of(s@, max as nat) == (match digits_value(body) {
                Some(n) => if body.len() > 0 && n <= max {
                    Some(n)
                } else {
                    None
                },
                None => None,
            }),
        decreases v@.len() - i,
    {
        let c: char = v[i];
        proof {
            assert(body.take(i - start + 1).drop_last() =~= body.take(i - start));
            assert(body.take(i - start + 1).last() == c);
            if digits_value(body) is Some {
                lemma_digits_value_grows(body, i - start + 1);
            }
        }
        if !('0' <= c && c <= '9') {
            return None;
        }
        let d: u64 = (c as u32 - '0' as u32) as u64;
        if d > max || n > (max - d) / 10 {
            return None;
        }
        n = 10 * n + d;
        i += 1;
    }
    assert(body.take(i - start) =~= body);
    Some(n)
}

/// A number written in decimal is read back.
pub proof fn decimal_reads_back(n: nat)
    ensures
        digits_value(digits(n)) == Some(n),
        digits(n).len() > 0,
        forall|i: int| 0 <= i < digits(n).len() ==> digit_value(#[trigger] digits(n)[i]) is Some,
    decreases n,
{
    reveal_with_fuel(digits_value, 2);
    if n < 10 {
        assert(digits(n).drop_last() =~= Seq::<char>::empty());
    } else {
        decimal_reads_back(n / 10);
        assert(digits(n).drop_last() =~= digits(n / 10));
    }
}

/// The pattern stands in `s` at position `i`.
pub open spec fn occurs_at<T>(s: Seq<T>, pat: Seq<T>, i: int) -> bool {
    0 <= i && i + pat.len() <= s.len() && s.subrange(i, i + pat.len()) == pat
}

/// The first position at or after `i` at which the pattern stands.
pub open spec fn first_at<T>(s: Seq<T>, pat: Seq<T>, i: int) -> Option<int>
    decreases s.len() + 1 - i,
{
    if i < 0 || i + pat.len() > s.len() {
        None
    } else if s.subrange(i, i + pat.len()) == pat {
        Some(i)
    } else {
        first_at(s, pat, i + 1)
    }
}

/// `first_at` is the least position at which the pattern stands.
pub proof fn lemma_first_at<T>(s: Seq<T>, pat: Seq<T>, i: int)
    requires
        0 <= i,
    ensures
        match first_at(s, pat, i) {
            Some(k) => i <= k && occurs_at(s, pat, k) && forall|j: int|
                i <= j < k ==> !#[trigger] occurs_at(s, pat, j),
            None => forall|j: int| i <= j ==> !#[trigger] occurs_at(s, pat, j),
        },
    decreases s.len() + 1 - i,
{
    if i + pat.len() > s.len() {
    } else if s.subrange(i, i + pat.len()) == pat {
    } else {
        lemma_first_at(s, pat, i + 1);
    }
}

/// Finds the pattern at or after a position.
pub fn find_text(v: &Vec<char>, pat: &Vec<char>, from: usize) -> (r: Option<usize>)
    requires
        from <= v@.len(),
    ensures
        match r {
            Some(k) => first_at(v@, pat@, from as int) == Some(k as int) && k + pat@.len()
                <= v@.len(),
            None => first_at(v@, pat@, from as int) is None,
        },
{
    let mut i: usize = from;
    loop
        invariant
            from <= i <= v@.len(),
            first_at(v@, pat@, from as int) == first_at(v@, pat@, i as int),
        decreases v@.len() - i,
    {
        if pat.len() > v.len() - i {
            return None;
        }
        if matches_at(v, pat, i) {
            return Some(i);
        }
        if i == v.len() {
            assert(v@.subrange(i as int, i + pat@.len()) =~= pat@);
            return None;
        }
        i += 1;
    }
}

fn matches_at(v: &Vec<char>, pat: &Vec<char>, at: usize) -> (r: bool)
    requires
        at + pat@.len() <= v@.len(),
    ensures
        r == (v@.subrange(at as int, at + pat@.len()) == pat@),
{
    let ghost part = v@.subrange(at as int, at + pat@.len());
    let mut j: usize = 0;
    let n: usize = v.len();
    while j < pat.len()
        invariant
            j <= pat@.len(),
            at + pat@.len() <= n == v@.len(),
            part == v@.subrange(at as int, at + pat@.len()),
            forall|k: int| 0 <= k < j ==> part[k] == pat@[k],
        decreases pat@.len() - j,
    {
        if v[at + j] != pat[j] {
            assert(part[j as int] != pat@[j as int]);
            return false;
        }
        j += 1;
    }
    assert(part =~= pat@);
    true
}

/// Whether the string starts with the prefix.
pub fn starts_with(s: &str, prefix: &str) -> (r: bool)
    ensures
        r == occurs_at(s@, prefix@, 0),
{
    let v = chars_of(s);
    let p = chars_of(prefix);
    if p.len() > v.len() {
        return false;
    }
    matches_at(&v, &p, 0)
}

/// Whether the text stands somewhere in the string.
pub fn contains_text(s: &str, part: &str) -> (r: bool)
    ensures
        r == (first_at(s@, part@, 0) is Some),
{
    let v = chars_of(s);
    let p = chars_of(part);
    find_text(&v, &p, 0).is_some()
}

/// Every occurrence of the pattern replaced, from the left.
pub open spec fn replaced(s: Seq<char>, pat: Seq<char>, with: Seq<char>) -> Seq<char>
    decreases s.len(),
{
    if pat.len() == 0 || s.len() < pat.len() {
        s
    } else if s.take(pat.len() as int) == pat {
        with + replaced(s.skip(pat.len() as int), pat, with)
    } else {
        seq![s[0]] + replaced(s.skip(1), pat, with)
    }
}

/// Replaces every occurrence of the pattern, from the left.
pub fn replace_all(s: &str, pat: &str, with: &str) -> (r: String)
    requires
        pat@.len() > 0,
    ensures
        r@ == replaced(s@, pat@, with@),
{
    let v = chars_of(s);
    let p = chars_of(pat);
    let mut out: String = String::new();
    let mut i: usize = 0;
    assert(v@.skip(0) =~= s@);
    assert(out@ + replaced(s@, pat@, with@) =~= replaced(s@, pat@, with@));
    while i < v.len()
        invariant
            i <= v@.len(),
            v@ == s@,
            p@ == pat@,
            pat@.len() > 0,
            replaced(s@, pat@, with@) == out@ + replaced(v@.skip(i as int), pat@, with@),
        decreases v@.len() - i,
    {
        let ghost rest = v@.skip(i as int);
        if p.len() <= v.len() - i && matches_at(&v, &p, i) {
            let ghost before = out@;
            out.push_str(with);
            i += p.len();
            proof {
                assert(rest.take(pat@.len() as int) =~= pat@);
                assert(rest.skip(pat@.len() as int) =~= v@.skip(i as int));
                assert(before + (with@ + replaced(v@.skip(i as int), pat@, with@)) =~= out@
                    + replaced(v@.skip(i as int), pat@, with@));
            }
        } else {
            let ghost before = out@;
            out.push(v[i]);
            proof {
                if rest.len() >= pat@.len() {
                    assert(rest.take(pat@.len() as int) =~= v@.subrange(
                        i as int,
                        i + pat@.len(),
                    ));
                } else {
                    lemma_short_is_kept(rest, pat@, with@);
                }
                assert(rest.skip(1) =~= v@.skip(i + 1));
                assert(before + (seq![v@[i as int]] + replaced(v@.skip(i + 1), pat@, with@))
                    =~= out@ + replaced(v@.skip(i + 1), pat@, with@));
            }
            i += 1;
        }
    }
    assert(v@.skip(i as int) =~= Seq::<char>::empty());
    assert(out@ + Seq::<char>::empty() =~= out@);
    out
}

proof fn lemma_short_is_kept(s: Seq<char>, pat: Seq<char>, with: Seq<char>)
    requires
        0 < s.len() < pat.len(),
    ensures
        replaced(s, pat, with) == seq![s[0]] + replaced(s.skip(1), pat, with),
{
    assert(seq![s[0]] + s.skip(1) =~= s);
}

proof fn lemma_no_digits(s: Seq<char>, i: int)
    requires
        0 <= i < s.len(),
        !('0' <= s[i] && s[i] <= '9'),
    ensures
        digits_value(s) is None,
    decreases s.len(),
{
    if i < s.len() - 1 {
        assert(s.drop_last()[i] == s[i]);
        lemma_no_digits(s.drop_last(), i);
    }
}

/// A text that holds another character than digits is no number; only a plus sign may stand
/// before them.
pub proof fn only_digits_are_a_number(s: Seq<char>, max: nat, i: int)
    requires
        0 <= i < s.len(),
        !('0' <= s[i] && s[i] <= '9'),
        !(i == 0 && s[0] == '+'),
    ensures
        number_of(s, max) is None,
{
    if s[0] == '+' {
        assert(s.skip(1)[i - 1] == s[i]);
        lemma_no_digits(s.skip(1), i - 1);
    } else {
        lemma_no_digits(s, i);
    }
}

/// A number is read from its digits exactly up to the largest that is allowed; a plus sign before
/// it changes nothing, and no digits are no number.
pub proof fn numbers_are_read_up_to_the_largest(n: nat, max: nat)
    ensures
        number_of(digits(n), max) == if n <= max {
            Some(n)
        } else {
            None
        },
        number_of(seq!['+'] + digits(n), max) == number_of(digits(n), max),
        number_of(Seq::empty(), max) is None,
        number_of(seq!['+'], max) is None,
{
    decimal_reads_back(n);
    assert(digit_value(digits(n)[0]) is Some);
    assert((seq!['+'] + digits(n)).skip(1) =~= digits(n));
    assert(seq!['+'].skip(1) =~= Seq::<char>::empty());
}

/// Text before the first place of a pattern is kept, the pattern is exchanged, and the rest is
/// treated by itself.
pub proof fn pattern_is_exchanged(a: Seq<char>, pat: Seq<char>, b: Seq<char>, with: Seq<char>)
    requires
        pat.len() > 0,
        forall|i: int| 0 <= i < a.len() ==> !occurs_at(a + pat + b, pat, i),
    ensures
        replaced(a + pat + b, pat, with) == a + with + replaced(b, pat, with),
    decreases a.len(),
{
    let s = a + pat + b;
    if a.len() == 0 {
        assert(s.take(pat.len() as int) =~= pat);
        assert(s.skip(pat.len() as int) =~= b);
        assert(a + with + replaced(b, pat, with) =~= with + replaced(b, pat, with));
    } else {
        let rest = a.skip(1);
        let t = rest + pat + b;
        assert(s.skip(1) =~= t);
        assert(!occurs_at(s, pat, 0));
        assert(s.take(pat.len() as int) =~= s.subrange(0, pat.len() as int));
        assert forall|i: int| 0 <= i < rest.len() implies !occurs_at(t, pat, i) by {
            assert(!occurs_at(s, pat, i + 1));
            if occurs_at(t, pat, i) {
                assert(s.subrange(i + 1, i + 1 + pat.len()) =~= t.subrange(i, i + pat.len()));
            }
        }
        pattern_is_exchanged(rest, pat, b, with);
        assert(seq![s[0]] + (rest + with + replaced(b, pat, with)) =~= a + with + replaced(
            b,
            pat,
            with,
        ));
    }
}

/// A text without the pattern stays as it is.
pub proof fn other_text_is_kept(s: Seq<char>, pat: Seq<char>, with: Seq<char>)
    requires
        pat.len() > 0,
        forall|i: int| 0 <= i ==> !occurs_at(s, pat, i),
    ensures
        replaced(s, pat, with) == s,
    decreases s.len(),
{
    if s.len() >= pat.len() {
        assert(!occurs_at(s, pat, 0));
        assert(s.take(pat.len() as int) =~= s.subrange(0, pat.len() as int));
        let t = s.skip(1);
        assert forall|i: int| 0 <= i implies !occurs_at(t, pat, i) by {
            assert(!occurs_at(s, pat, i + 1));
            if occurs_at(t, pat, i) {
                assert(s.subrange(i + 1, i + 1 + pat.len()) =~= t.subrange(i, i + pat.len()));
            }
        }
        other_text_is_kept(t, pat, with);
        assert(seq![s[0]] + t =~= s);
    }
}

/// A part stands somewhere in a text.
pub open spec fn has_part(s: Seq<char>, part: Seq<char>) -> bool {
    exists|i: int| occurs_at(s, part, i)
}

/// What stands in a text stands in a longer one, too.
pub proof fn lemma_part_between(a: Seq<char>, s: Seq<char>, b: Seq<char>, part: Seq<char>)
    requires
        has_part(s, part),
    ensures
        has_part(a + s + b, part),
{
    let i = choose|i: int| occurs_at(s, part, i);
    let all = a + s + b;
    let k = a.len() + i;
    assert(all.subrange(k, k + part.len()) =~= s.subrange(i, i + part.len()));
    assert(occurs_at(all, part, k));
}

/// A text stands in itself.
pub proof fn lemma_whole_part(part: Seq<char>)
    ensures
        has_part(part, part),
{
    assert(part.subrange(0, part.len() as int) =~= part);
    assert(occurs_at(part, part, 0));
}

} // verus!
