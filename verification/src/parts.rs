//! Taking texts apart.

use vstd::prelude::*;
use crate::text::{chars_of, text_between};

verus! {

/// What several strings hold.
pub open spec fn texts(v: Seq<String>) -> Seq<Seq<char>> {
    Seq::new(v.len(), |i: int| v[i]@)
}

/// White space, as Unicode defines it.
pub open spec fn is_space(c: char) -> bool {
    let n = c as u32;
    ||| 0x09 <= n <= 0x0d
    ||| n == 0x20
    ||| n == 0x85
    ||| n == 0xa0
    ||| n == 0x1680
    ||| 0x2000 <= n <= 0x200a
    ||| n == 0x2028
    ||| n == 0x2029
    ||| n == 0x202f
    ||| n == 0x205f
    ||| n == 0x3000
}

fn space(c: char) -> (r: bool)
    ensures
        r == is_space(c),
{
    let n: u32 = c as u32;
    (0x09 <= n && n <= 0x0d) || n == 0x20 || n == 0x85 || n == 0xa0 || n == 0x1680 || (0x2000 <= n
        && n <= 0x200a) || n == 0x2028 || n == 0x2029 || n == 0x202f || n == 0x205f || n == 0x3000
}

/// What separates the parts of a text.
#[derive(Debug, PartialEq, Eq, Structural, Clone, Copy)]
pub enum Separator {
    Char(char),
    Space,
}

impl Separator {
    pub open spec fn splits(self, c: char) -> bool {
        match self {
            Separator::Char(s) => c == s,
            Separator::Space => is_space(c),
        }
    }

    fn is_split(&self, c: char) -> (r: bool)
        ensures
            r == self.splits(c),
    {
        match *self {
            Separator::Char(s) => c == s,
            Separator::Space => space(c),
        }
    }
}

/// The parts of a text between its separators, the empty ones too.
pub open spec fn pieces(s: Seq<char>, sep: Separator) -> Seq<Seq<char>>
    decreases s.len(),
{
    if s.len() == 0 {
        seq![Seq::empty()]
    } else {
        let before = pieces(s.drop_last(), sep);
        if sep.splits(s.last()) {
            before.push(Seq::empty())
        } else {
            before.drop_last().push(before.last().push(s.last()))
        }
    }
}

/// There is at least one part.
pub proof fn lemma_pieces_some(s: Seq<char>, sep: Separator)
    ensures
        pieces(s, sep).len() > 0,
    decreases s.len(),
{
    if s.len() > 0 {
        lemma_pieces_some(s.drop_last(), sep);
    }
}

/// The parts of a text between its separators, the empty ones too.
pub fn split(s: &str, sep: Separator) -> (r: Vec<String>)
    ensures
        texts(r@) == pieces(s@, sep),
        r@.len() > 0,
{
    let v = chars_of(s);
    let mut done: Vec<String> = Vec::new();
    let mut last: String = String::new();
    let mut i: usize = 0;
    proof {
        assert(s@.take(0) =~= Seq::empty());
        assert(texts(done@).push(last@) =~= pieces(s@.take(0), sep));
    }
    while i < v.len()
        invariant
            i <= v@.len(),
            v@ == s@,
            texts(done@).push(last@) == pieces(s@.take(i as int), sep),
        decreases v@.len() - i,
    {
        let c: char = v[i];
        let ghost before = texts(done@).push(last@);
        proof {
            assert(s@.take(i + 1).drop_last() =~= s@.take(i as int));
            assert(s@.take(i + 1).last() == c);
            assert(before.drop_last() =~= texts(done@));
        }
        if sep.is_split(c) {
            let ghost old_done = done@;
            let ghost piece = last@;
            done.push(last);
            last = String::new();
            proof {
                assert(texts(done@) =~= texts(old_done).push(piece));
                assert(texts(done@).push(last@) =~= before.push(Seq::empty()));
            }
        } else {
            last.push(c);
        }
        i += 1;
    }
    assert(s@.take(i as int) =~= s@);
    let ghost old_done = done@;
    let ghost piece = last@;
    done.push(last);
    assert(texts(done@) =~= texts(old_done).push(piece));
    done
}

/// The parts that are not empty.
pub open spec fn filled(p: Seq<Seq<char>>) -> Seq<Seq<char>>
    decreases p.len(),
{
    if p.len() == 0 {
        Seq::empty()
    } else if p.last().len() == 0 {
        filled(p.drop_last())
    } else {
        filled(p.drop_last()).push(p.last())
    }
}

fn keep_filled(v: &Vec<String>) -> (r: Vec<String>)
    ensures
        texts(r@) == filled(texts(v@)),
{
    let mut r: Vec<String> = Vec::new();
    let mut i: usize = 0;
    proof {
        assert(texts(v@).take(0) =~= Seq::empty());
        assert(texts(r@) =~= Seq::empty());
    }
    while i < v.len()
        invariant
            i <= v@.len(),
            texts(r@) == filled(texts(v@).take(i as int)),
        decreases v@.len() - i,
    {
        let ghost before = r@;
        proof {
            assert(texts(v@).take(i + 1).drop_last() =~= texts(v@).take(i as int));
            assert(texts(v@).take(i + 1).last() == v@[i as int]@);
        }
        if !v[i].as_str().is_empty() {
            r.push(v[i].clone());
            assert(texts(r@) =~= texts(before).push(v@[i as int]@));
        }
        i += 1;
    }
    assert(texts(v@).take(i as int) =~= texts(v@));
    r
}

/// The words of a text: its parts between white space.
pub open spec fn words_of(s: Seq<char>) -> Seq<Seq<char>> {
    filled(pieces(s, Separator::Space))
}

pub fn words(s: &str) -> (r: Vec<String>)
    ensures
        texts(r@) == words_of(s@),
{
    let v = split(s, Separator::Space);
    keep_filled(&v)
}

/// The text without a carriage return at its end.
pub open spec fn without_return(s: Seq<char>) -> Seq<char> {
    if s.len() > 0 && s.last() == '\r' {
        s.drop_last()
    } else {
        s
    }
}

/// The lines of a text. A line ends with a line feed, and a carriage return before it belongs to
/// the end; the last line needs no end.
pub open spec fn lines_of(s: Seq<char>) -> Seq<Seq<char>> {
    let p = pieces(s, Separator::Char('\n'));
    let ended = Seq::new((p.len() - 1) as nat, |i: int| without_return(p[i]));
    if p.last().len() == 0 {
        ended
    } else {
        ended.push(p.last())
    }
}

fn cut_return(s: &String) -> (r: String)
    ensures
        r@ == without_return(s@),
{
    let v = chars_of(s.as_str());
    let n: usize = v.len();
    if n > 0 && v[n - 1] == '\r' {
        let r = text_between(&v, 0, n - 1);
        assert(r@ =~= without_return(s@));
        r
    } else {
        s.clone()
    }
}

pub fn lines(s: &str) -> (r: Vec<String>)
    ensures
        texts(r@) == lines_of(s@),
{
    let p = split(s, Separator::Char('\n'));
    let ghost all = texts(p@);
    let ghost ended = Seq::new((all.len() - 1) as nat, |i: int| without_return(all[i]));
    let mut r: Vec<String> = Vec::new();
    let last: usize = p.len() - 1;
    let mut i: usize = 0;
    while i < last
        invariant
            i <= last,
            last == p@.len() - 1,
            all == texts(p@),
            ended == Seq::new((all.len() - 1) as nat, |i: int| without_return(all[i])),
            texts(r@) == ended.take(i as int),
        decreases last - i,
    {
        let ghost before = r@;
        let line = cut_return(&p[i]);
        let ghost text = line@;
        r.push(line);
        proof {
            assert(all[i as int] == p@[i as int]@);
            assert(texts(r@) =~= texts(before).push(text));
            assert(ended.take(i + 1) =~= ended.take(i as int).push(text));
        }
        i += 1;
    }
    assert(ended.take(last as int) =~= ended);
    if !p[last].as_str().is_empty() {
        let ghost before = r@;
        r.push(p[last].clone());
        assert(texts(r@) =~= texts(before).push(all.last()));
    }
    r
}

/// The text from its first character on that is no white space.
pub open spec fn skip_spaces(s: Seq<char>) -> Seq<char>
    decreases s.len(),
{
    if s.len() > 0 && is_space(s[0]) {
        skip_spaces(s.skip(1))
    } else {
        s
    }
}

/// The text up to its last character that is no white space.
pub open spec fn drop_spaces(s: Seq<char>) -> Seq<char>
    decreases s.len(),
{
    if s.len() > 0 && is_space(s.last()) {
        drop_spaces(s.drop_last())
    } else {
        s
    }
}

/// The text without white space at its ends.
pub open spec fn trimmed(s: Seq<char>) -> Seq<char> {
    drop_spaces(skip_spaces(s))
}

pub fn trim(s: &str) -> (r: String)
    ensures
        r@ == trimmed(s@),
{
    let v = chars_of(s);
    let mut from: usize = 0;
    assert(v@.skip(0) =~= s@);
    while from < v.len() && space(v[from])
        invariant
            from <= v@.len(),
            skip_spaces(s@) == skip_spaces(v@.skip(from as int)),
        decreases v@.len() - from,
    {
        assert(v@.skip(from as int).skip(1) =~= v@.skip(from + 1));
        from += 1;
    }
    let ghost rest = v@.skip(from as int);
    assert(skip_spaces(rest) == rest);
    let mut to: usize = v.len();
    assert(v@.subrange(from as int, to as int) =~= rest);
    while from < to && space(v[to - 1])
        invariant
            from <= to <= v@.len(),
            drop_spaces(rest) == drop_spaces(v@.subrange(from as int, to as int)),
        decreases to - from,
    {
        assert(v@.subrange(from as int, to as int).drop_last() =~= v@.subrange(
            from as int,
            to - 1,
        ));
        to -= 1;
    }
    let ghost core = v@.subrange(from as int, to as int);
    assert(drop_spaces(core) == core);
    text_between(&v, from, to)
}

/// A part without separators, one separator, and more text: the part comes first.
pub proof fn pieces_of_joined(a: Seq<char>, c: char, b: Seq<char>)
    requires
        !a.contains(c),
    ensures
        pieces(a + seq![c] + b, Separator::Char(c)) == seq![a] + pieces(b, Separator::Char(c)),
    decreases b.len(),
{
    let sep = Separator::Char(c);
    let s = a + seq![c] + b;
    if b.len() == 0 {
        assert(s.drop_last() =~= a);
        pieces_of_one(a, c);
        assert(pieces(s, sep) =~= seq![a] + pieces(b, sep));
    } else {
        assert(s.drop_last() =~= a + seq![c] + b.drop_last());
        pieces_of_joined(a, c, b.drop_last());
        lemma_pieces_some(b.drop_last(), sep);
        assert(pieces(s, sep) =~= seq![a] + pieces(b, sep));
    }
}

/// A text without separators is one part.
pub proof fn pieces_of_one(a: Seq<char>, c: char)
    requires
        !a.contains(c),
    ensures
        pieces(a, Separator::Char(c)) == seq![a],
    decreases a.len(),
{
    if a.len() == 0 {
        assert(a =~= Seq::empty());
    } else {
        assert(a.contains(a.last()));
        assert forall|i: int| 0 <= i < a.drop_last().len() implies a.drop_last()[i] != c by {
            assert(a.contains(a[i]));
        }
        pieces_of_one(a.drop_last(), c);
        assert(a.drop_last().push(a.last()) =~= a);
        assert(pieces(a, Separator::Char(c)) =~= seq![a]);
    }
}

/// What a trimmed text starts and ends with is no white space.
pub proof fn trimmed_ends_are_no_space(s: Seq<char>)
    ensures
        trimmed(s).len() > 0 ==> !is_space(trimmed(s)[0]) && !is_space(trimmed(s).last()),
{
    lemma_skip_spaces(s);
    lemma_drop_spaces(skip_spaces(s));
}

proof fn lemma_skip_spaces(s: Seq<char>)
    ensures
        skip_spaces(s).len() > 0 ==> !is_space(skip_spaces(s)[0]),
    decreases s.len(),
{
    if s.len() > 0 && is_space(s[0]) {
        lemma_skip_spaces(s.skip(1));
    }
}

proof fn lemma_drop_spaces(s: Seq<char>)
    ensures
        drop_spaces(s).len() > 0 ==> !is_space(drop_spaces(s).last()) && drop_spaces(s)[0] == s[0],
    decreases s.len(),
{
    if s.len() > 0 && is_space(s.last()) {
        lemma_drop_spaces(s.drop_last());
    }
}

/// A text is split at each separator: what stands before it is split by itself, and so is what
/// stands behind it.
pub proof fn pieces_meet_at_separators(a: Seq<char>, c: char, b: Seq<char>, sep: Separator)
    requires
        match sep {
            Separator::Char(s) => c == s,
            Separator::Space => c == ' ' || c == '\t' || c == '\r' || c == '\n',
        },
    ensures
        pieces(a + seq![c] + b, sep) == pieces(a, sep) + pieces(b, sep),
    decreases b.len(),
{
    let s = a + seq![c] + b;
    if b.len() == 0 {
        assert(s.drop_last() =~= a);
        assert(s.last() == c);
        assert(sep.splits(c));
        assert(pieces(s, sep) =~= pieces(a, sep) + pieces(b, sep));
    } else {
        assert(s.drop_last() =~= a + seq![c] + b.drop_last());
        assert(s.last() == b.last());
        pieces_meet_at_separators(a, c, b.drop_last(), sep);
        lemma_pieces_some(b.drop_last(), sep);
        assert(pieces(s, sep) =~= pieces(a, sep) + pieces(b, sep));
    }
}

proof fn lemma_unbroken(a: Seq<char>, sep: Separator)
    requires
        forall|i: int| 0 <= i < a.len() ==> !sep.splits(#[trigger] a[i]),
    ensures
        pieces(a, sep) == seq![a],
    decreases a.len(),
{
    if a.len() == 0 {
        assert(a =~= Seq::empty());
    } else {
        assert forall|i: int| 0 <= i < a.drop_last().len() implies !sep.splits(
            #[trigger] a.drop_last()[i],
        ) by {
            assert(!sep.splits(a[i]));
        }
        lemma_unbroken(a.drop_last(), sep);
        assert(!sep.splits(a[a.len() - 1]));
        assert(a.drop_last().push(a.last()) =~= a);
        assert(pieces(a, sep) =~= seq![a]);
    }
}

proof fn lemma_filled_parts(p: Seq<Seq<char>>, q: Seq<Seq<char>>)
    ensures
        filled(p + q) == filled(p) + filled(q),
    decreases q.len(),
{
    if q.len() == 0 {
        assert(p + q =~= p);
        assert(filled(p) + filled(q) =~= filled(p));
    } else {
        assert((p + q).drop_last() =~= p + q.drop_last());
        lemma_filled_parts(p, q.drop_last());
        assert(filled(p + q) =~= filled(p) + filled(q));
    }
}

/// The words before a blank are followed by those behind it.
pub proof fn words_stand_between_blanks(a: Seq<char>, c: char, b: Seq<char>)
    requires
        c == ' ' || c == '\t' || c == '\r' || c == '\n',
    ensures
        words_of(a + seq![c] + b) == words_of(a) + words_of(b),
{
    pieces_meet_at_separators(a, c, b, Separator::Space);
    lemma_filled_parts(pieces(a, Separator::Space), pieces(b, Separator::Space));
}

/// Characters without a blank among them are one word, and no characters are none.
pub proof fn unbroken_text_is_one_word(a: Seq<char>)
    requires
        forall|i: int| 0 <= i < a.len() ==> '!' <= #[trigger] a[i] <= '~',
    ensures
        words_of(a) == if a.len() > 0 {
            seq![a]
        } else {
            Seq::empty()
        },
{
    assert forall|i: int| 0 <= i < a.len() implies !Separator::Space.splits(#[trigger] a[i]) by {
        assert('!' <= a[i] <= '~');
    }
    lemma_unbroken(a, Separator::Space);
    assert(seq![a].drop_last() =~= Seq::empty());
    assert(filled(Seq::<Seq<char>>::empty()) =~= Seq::empty());
    assert(words_of(a) =~= if a.len() > 0 {
        seq![a]
    } else {
        Seq::empty()
    });
}

proof fn lemma_first_line(a: Seq<char>, b: Seq<char>)
    requires
        !a.contains('\n'),
    ensures
        lines_of(a + seq!['\n'] + b) == seq![without_return(a)] + lines_of(b),
{
    let sep = Separator::Char('\n');
    let s = a + seq!['\n'] + b;
    pieces_of_joined(a, '\n', b);
    lemma_pieces_some(b, sep);
    let p = pieces(s, sep);
    let q = pieces(b, sep);
    assert(p =~= seq![a] + q);
    assert(p.last() == q.last());
    let ended_p = Seq::new((p.len() - 1) as nat, |i: int| without_return(p[i]));
    let ended_q = Seq::new((q.len() - 1) as nat, |i: int| without_return(q[i]));
    assert(ended_p =~= seq![without_return(a)] + ended_q);
    assert(lines_of(s) =~= seq![without_return(a)] + lines_of(b));
}

/// A line goes up to its end, which is a newline with or without a carriage return before it, and
/// the rest is split into lines by itself.
pub proof fn lines_go_up_to_their_ends(a: Seq<char>, b: Seq<char>)
    requires
        !a.contains('\n'),
        a.len() == 0 || a.last() != '\r',
    ensures
        lines_of(a + seq!['\n'] + b) == seq![a] + lines_of(b),
        lines_of(a + seq!['\r', '\n'] + b) == seq![a] + lines_of(b),
{
    lemma_first_line(a, b);
    let r = a.push('\r');
    assert forall|i: int| 0 <= i < r.len() implies r[i] != '\n' by {
        if i < a.len() {
            assert(a.contains(a[i]));
        }
    }
    lemma_first_line(r, b);
    assert(a + seq!['\r', '\n'] + b =~= r + seq!['\n'] + b);
    assert(without_return(r) =~= a);
}

/// A last line needs no end, and no text has no lines.
pub proof fn last_line_needs_no_end(a: Seq<char>)
    requires
        !a.contains('\n'),
    ensures
        lines_of(a) == if a.len() > 0 {
            seq![a]
        } else {
            Seq::empty()
        },
{
    pieces_of_one(a, '\n');
    assert(lines_of(a) =~= if a.len() > 0 {
        seq![a]
    } else {
        Seq::empty()
    });
}

proof fn lemma_skips_blanks(a: Seq<char>, s: Seq<char>)
    requires
        forall|i: int|
            0 <= i < a.len() ==> #[trigger] a[i] == ' ' || a[i] == '\t' || a[i] == '\r' || a[i]
                == '\n',
        s.len() == 0 || !is_space(s[0]),
    ensures
        skip_spaces(a + s) == s,
    decreases a.len(),
{
    if a.len() == 0 {
        assert(a + s =~= s);
    } else {
        let rest = a.skip(1);
        assert((a + s)[0] == a[0]);
        assert((a + s).skip(1) =~= rest + s);
        assert forall|i: int| 0 <= i < rest.len() implies #[trigger] rest[i] == ' ' || rest[i]
            == '\t' || rest[i] == '\r' || rest[i] == '\n' by {
            assert(a[i + 1] == ' ' || a[i + 1] == '\t' || a[i + 1] == '\r' || a[i + 1] == '\n');
        }
        lemma_skips_blanks(rest, s);
    }
}

proof fn lemma_drops_blanks(s: Seq<char>, b: Seq<char>)
    requires
        forall|i: int|
            0 <= i < b.len() ==> #[trigger] b[i] == ' ' || b[i] == '\t' || b[i] == '\r' || b[i]
                == '\n',
        s.len() == 0 || !is_space(s.last()),
    ensures
        drop_spaces(s + b) == s,
    decreases b.len(),
{
    if b.len() == 0 {
        assert(s + b =~= s);
    } else {
        let less = b.drop_last();
        let l = b[b.len() - 1];
        assert((s + b).last() == l);
        assert((s + b).drop_last() =~= s + less);
        assert forall|i: int| 0 <= i < less.len() implies #[trigger] less[i] == ' ' || less[i]
            == '\t' || less[i] == '\r' || less[i] == '\n' by {
            assert(b[i] == ' ' || b[i] == '\t' || b[i] == '\r' || b[i] == '\n');
        }
        lemma_drops_blanks(s, less);
    }
}

/// Trimming takes the blanks before a text and behind it off, and leaves the text itself.
pub proof fn trimming_leaves_the_text(a: Seq<char>, s: Seq<char>, b: Seq<char>)
    requires
        forall|i: int|
            0 <= i < a.len() ==> #[trigger] a[i] == ' ' || a[i] == '\t' || a[i] == '\r' || a[i]
                == '\n',
        forall|i: int|
            0 <= i < b.len() ==> #[trigger] b[i] == ' ' || b[i] == '\t' || b[i] == '\r' || b[i]
                == '\n',
        s.len() > 0,
        '!' <= s[0] <= '~',
        '!' <= s.last() <= '~',
    ensures
        trimmed(a + s + b) == s,
{
    assert(a + s + b =~= a + (s + b));
    assert((s + b)[0] == s[0]);
    lemma_skips_blanks(a, s + b);
    lemma_drops_blanks(s, b);
}

} // verus!
