//! Reading up to a separator, peeking, and copying.

use bytes::{Bytes, BytesMut};
use vstd::prelude::*;
use crate::text;
use crate::buf;
use crate::buf::{buf_advance, buf_extend, buf_len, buf_new, buf_slice, bytes_from_vec};

verus! {

/// Where a connection is to go.
pub enum HostPort {
    DomainPort(String, u16),
    /// An IPv4 address.
    V4Port([u8; 4], u16),
    /// An IPv6 address, in groups.
    V6Port([u16; 8], u16),
}

/// What a destination says.
pub enum HostPortView {
    Domain(Seq<char>, u16),
    V4(Seq<u8>, u16),
    V6(Seq<u16>, u16),
}

impl View for HostPort {
    type V = HostPortView;

    open spec fn view(&self) -> HostPortView {
        match *self {
            HostPort::DomainPort(name, port) => HostPortView::Domain(name@, port),
            HostPort::V4Port(a, port) => HostPortView::V4(a@, port),
            HostPort::V6Port(a, port) => HostPortView::V6(a@, port),
        }
    }
}

/// `twoway::find_bytes`: the first position at which the pattern stands in the text.
#[verifier::external_body]
pub(crate) fn find_bytes(text: &[u8], pattern: &[u8]) -> (r: Option<usize>)
    ensures
        match r {
            Some(k) => text::first_at(text@, pattern@, 0) == Some(k as int),
            None => text::first_at(text@, pattern@, 0) is None,
        },
{
    twoway::find_bytes(text, pattern)
}

/// Collects what is received until a separator has come.
pub struct ReadUntilSeparator {
    separator: Vec<u8>,
    buf: BytesMut,
}

/// What the received bytes came to.
pub enum SeparatorRead {
    /// Everything up to the separator, with it, and what follows.
    Done(Bytes, Bytes),
    Again,
    /// The connection ended before the separator.
    ConnectionReset,
}

impl ReadUntilSeparator {
    pub closed spec fn sep(self) -> Seq<u8> {
        self.separator@
    }

    pub closed spec fn collected(self) -> Seq<u8> {
        buf::buf_of(self.buf)
    }

    pub fn new(separator: &str) -> (r: ReadUntilSeparator)
        ensures
            r.sep() == vstd::utf8::encode_utf8(separator@),
            r.collected() == Seq::<u8>::empty(),
    {
        ReadUntilSeparator {
            separator: vstd::slice::slice_to_vec(separator.as_bytes()),
            buf: buf_new(),
        }
    }

    /// Takes in the next bytes; none means that the connection has ended.
    pub fn received(&mut self, data: &[u8]) -> (r: SeparatorRead)
        requires
            old(self).collected().len() + data@.len() <= isize::MAX,
        ensures
            final(self).sep() == old(self).sep(),
            final(self).collected() == old(self).collected() + data@,
            separates(old(self).collected(), data@, old(self).sep(), r),
    {
        if data.len() == 0 {
            assert(self.collected() + data@ =~= self.collected());
            return SeparatorRead::ConnectionReset;
        }
        buf_extend(&mut self.buf, data);
        let ghost all = buf::buf_of(self.buf);
        let bytes = buf_slice(&self.buf);
        match find_bytes(bytes, self.separator.as_slice()) {
            Some(pos) => {
                proof {
                    text::lemma_first_at(all, self.separator@, 0);
                }
                let size: usize = bytes.len();
                let end: usize = pos + self.separator.len();
                let head = vstd::slice::slice_to_vec(vstd::slice::slice_subrange(bytes, 0, end));
                let rest = vstd::slice::slice_to_vec(
                    vstd::slice::slice_subrange(bytes, end, size),
                );
                assert(head@ =~= all.take(end as int));
                assert(rest@ =~= all.skip(end as int));
                SeparatorRead::Done(bytes_from_vec(head), bytes_from_vec(rest))
            },
            None => SeparatorRead::Again,
        }
    }
}

proof fn lemma_first_at_extends(s: Seq<u8>, t: Seq<u8>, pat: Seq<u8>, i: int)
    requires
        0 <= i,
        text::first_at(s, pat, i) is Some,
    ensures
        text::first_at(s + t, pat, i) == text::first_at(s, pat, i),
    decreases s.len() + 1 - i,
{
    assert((s + t).subrange(i, i + pat.len()) =~= s.subrange(i, i + pat.len()));
    if s.subrange(i, i + pat.len()) != pat {
        lemma_first_at_extends(s, t, pat, i + 1);
    }
}

/// Where the bytes are split does not depend on how many come at once: once the separator has
/// come, further bytes leave the part before it as it is and follow the rest.
pub proof fn later_bytes_change_no_split(s: Seq<u8>, t: Seq<u8>, sep: Seq<u8>)
    requires
        text::first_at(s, sep, 0) is Some,
    ensures
        text::first_at(s + t, sep, 0) == text::first_at(s, sep, 0),
        ({
            let end = text::first_at(s, sep, 0)->Some_0 + sep.len();
            &&& (s + t).take(end) == s.take(end)
            &&& (s + t).skip(end) == s.skip(end) + t
            &&& s.take(end) + s.skip(end) == s
        }),
{
    lemma_first_at_extends(s, t, sep, 0);
    text::lemma_first_at(s, sep, 0);
    let end = text::first_at(s, sep, 0)->Some_0 + sep.len();
    assert((s + t).take(end) =~= s.take(end));
    assert((s + t).skip(end) =~= s.skip(end) + t);
    assert(s.take(end) + s.skip(end) =~= s);
}

/// A reader that can be looked ahead into without taking anything off it.
pub struct PeekableReader {
    peek_buf: BytesMut,
}

/// What a look ahead came to.
pub enum PeekStep {
    /// The next bytes, which stay where they are.
    Ready(Vec<u8>),
    /// This many bytes are to be read first, at most.
    Read(usize),
}

/// What a read came to.
pub enum ReadStep {
    /// Bytes that had been looked at.
    Data(Vec<u8>),
    /// Nothing is held: read from the source itself.
    PassThrough,
}

impl PeekableReader {
    /// What has been read ahead.
    pub closed spec fn ahead(self) -> Seq<u8> {
        buf::buf_of(self.peek_buf)
    }

    pub fn new() -> (r: PeekableReader)
        ensures
            r.ahead() == Seq::<u8>::empty(),
    {
        PeekableReader { peek_buf: buf_new() }
    }

    /// Looks at the next `n` bytes, or says how many are missing.
    pub fn poll_peek(&self, n: usize) -> (r: PeekStep)
        ensures
            self.ahead().len() < n ==> r is Read && r->Read_0 == n - self.ahead().len(),
            self.ahead().len() >= n ==> r is Ready && r->Ready_0@ == self.ahead().take(n as int),
    {
        let have: usize = buf_len(&self.peek_buf);
        if have < n {
            return PeekStep::Read(n - have);
        }
        let data = vstd::slice::slice_to_vec(
            vstd::slice::slice_subrange(buf_slice(&self.peek_buf), 0, n),
        );
        assert(data@ =~= self.ahead().take(n as int));
        PeekStep::Ready(data)
    }

    /// Takes in bytes that were read ahead. None means that the connection was reset.
    pub fn read_ahead(&mut self, data: &[u8]) -> (reset: bool)
        requires
            old(self).ahead().len() + data@.len() <= isize::MAX,
        ensures
            reset == (data@.len() == 0),
            final(self).ahead() == old(self).ahead() + data@,
    {
        buf_extend(&mut self.peek_buf, data);
        data.len() == 0
    }

    /// Reads: what was looked at comes first.
    pub fn read(&mut self, capacity: usize) -> (r: ReadStep)
        ensures
            reads_ahead(old(self).ahead(), final(self).ahead(), capacity, r),
    {
        let have: usize = buf_len(&self.peek_buf);
        if have == 0 {
            return ReadStep::PassThrough;
        }
        let n: usize = if have <= capacity {
            have
        } else {
            capacity
        };
        let data = vstd::slice::slice_to_vec(
            vstd::slice::slice_subrange(buf_slice(&self.peek_buf), 0, n),
        );
        assert(data@ =~= self.ahead().take(n as int));
        buf_advance(&mut self.peek_buf, n);
        ReadStep::Data(data)
    }
}

/// How many of `len` bytes fit into `capacity`.
pub open spec fn fits(len: nat, capacity: usize) -> int {
    if len <= capacity {
        len as int
    } else {
        capacity as int
    }
}

/// Looking ahead and then reading gives the bytes in the order in which they came, once each.
pub proof fn what_was_peeked_is_read(ahead: Seq<u8>, n: int, capacity: usize)
    requires
        0 < n <= ahead.len(),
    ensures
        ahead.take(fits(ahead.len(), capacity)) + ahead.skip(fits(ahead.len(), capacity)) == ahead,
        n <= capacity ==> ahead.take(n) == ahead.take(fits(ahead.len(), capacity)).take(n),
{
    let k = fits(ahead.len(), capacity);
    assert(ahead.take(k) + ahead.skip(k) =~= ahead);
    if n <= capacity {
        assert(ahead.take(n) =~= ahead.take(k).take(n));
    }
}

/// A copy from a reader to a writer through a buffer: what the buffer holds and how far it has
/// been written.
pub struct BufCopy {
    read_done: bool,
    pos: usize,
    buf: Vec<u8>,
    amt: u64,
}

/// What a copy does next.
#[derive(Debug, PartialEq, Eq, Structural, Clone, Copy)]
pub enum CopyStep {
    /// Fill the buffer from the reader.
    Read,
    /// Write what the buffer still holds.
    Write,
    /// Everything is through: flush the writer.
    Flush,
}

/// "write zero byte into writer"
#[derive(Debug, PartialEq, Eq, Structural, Clone, Copy)]
pub struct WriteZero;

/// The state of a copy.
#[verifier::ext_equal]
pub struct CopyView {
    /// The reader has come to its end.
    pub done: bool,
    /// The bytes that are read and not yet written.
    pub pending: Seq<u8>,
    /// How many bytes are written so far.
    pub amount: u64,
}

impl CopyView {
    pub open spec fn fresh() -> CopyView {
        CopyView { done: false, pending: Seq::empty(), amount: 0 }
    }

    /// What is done next.
    pub open spec fn step(self) -> CopyStep {
        if self.pending.len() > 0 {
            CopyStep::Write
        } else if self.done {
            CopyStep::Flush
        } else {
            CopyStep::Read
        }
    }

    /// The copy after a read; one that gave nothing came to the end.
    pub open spec fn filled(self, data: Seq<u8>) -> CopyView {
        if data.len() == 0 {
            CopyView { done: true, ..self }
        } else {
            CopyView { pending: data, ..self }
        }
    }

    /// The copy after the writer took `n` bytes.
    pub open spec fn written(self, n: int) -> CopyView {
        CopyView { pending: self.pending.skip(n), amount: (self.amount + n) as u64, ..self }
    }
}

impl BufCopy {
    pub closed spec fn wf(self) -> bool {
        self.pos <= self.buf@.len()
    }

    pub closed spec fn state(self) -> CopyView {
        CopyView { done: self.read_done, pending: self.buf@.skip(self.pos as int), amount: self.amt }
    }

    pub fn new() -> (r: BufCopy)
        ensures
            r.wf(),
            r.state() == CopyView::fresh(),
    {
        let r = BufCopy { read_done: false, pos: 0, buf: Vec::new(), amt: 0 };
        assert(r.state() =~= CopyView::fresh());
        r
    }

    /// What is to be done next.
    pub fn poll(&self) -> (r: CopyStep)
        requires
            self.wf(),
        ensures
            r == self.state().step(),
    {
        if self.pos < self.buf.len() {
            CopyStep::Write
        } else if self.read_done {
            CopyStep::Flush
        } else {
            CopyStep::Read
        }
    }

    /// The bytes to be written.
    pub fn pending(&self) -> (r: &[u8])
        requires
            self.wf(),
        ensures
            r@ == self.state().pending,
    {
        let size: usize = self.buf.len();
        let r = vstd::slice::slice_subrange(self.buf.as_slice(), self.pos, size);
        assert(r@ =~= self.state().pending);
        r
    }

    /// Takes in what was read; nothing means the end.
    pub fn filled(&mut self, data: Vec<u8>)
        requires
            old(self).wf(),
            old(self).state().step() == CopyStep::Read,
        ensures
            final(self).wf(),
            final(self).state() == old(self).state().filled(data@),
    {
        if data.len() == 0 {
            self.read_done = true;
        } else {
            self.pos = 0;
            self.buf = data;
            assert(self.buf@.skip(0) =~= data@);
        }
    }

    /// Takes note that the writer took `n` bytes; none is an error.
    pub fn written(&mut self, n: usize) -> (r: Result<(), WriteZero>)
        requires
            old(self).wf(),
            n <= old(self).state().pending.len(),
            old(self).state().amount + n <= u64::MAX,
        ensures
            final(self).wf(),
            r is Err <==> n == 0,
            final(self).state() == old(self).state().written(n as int),
    {
        let ghost pre = self.state();
        if n == 0 {
            assert(pre.pending.skip(0) =~= pre.pending);
            return Err(WriteZero);
        }
        let _size: usize = self.buf.len();
        self.pos = self.pos + n;
        self.amt = self.amt + n as u64;
        assert(self.state().pending =~= pre.pending.skip(n as int));
        Ok(())
    }

    /// How many bytes are written so far.
    pub fn amount(&self) -> (r: u64)
        ensures
            r == self.state().amount,
    {
        self.amt
    }
}

/// The copy is true to its reader and its writer: what was written, and then what the buffer
/// holds, is what was read.
pub open spec fn true_copy(c: CopyView, read: Seq<u8>, written: Seq<u8>) -> bool {
    &&& written + c.pending == read
    &&& c.amount == written.len()
}

/// A copy stays true through a read.
pub proof fn reading_keeps_the_copy_true(
    c: CopyView,
    read: Seq<u8>,
    written: Seq<u8>,
    data: Seq<u8>,
)
    requires
        true_copy(c, read, written),
        c.step() == CopyStep::Read,
    ensures
        true_copy(c.filled(data), read + data, written),
{
    assert(c.pending =~= Seq::empty());
    assert(read =~= written);
    assert(written + c.filled(data).pending =~= read + data);
}

/// A copy stays true through a write.
pub proof fn writing_keeps_the_copy_true(c: CopyView, read: Seq<u8>, written: Seq<u8>, n: int)
    requires
        true_copy(c, read, written),
        0 <= n <= c.pending.len(),
        c.amount + n <= u64::MAX,
    ensures
        true_copy(c.written(n), read, written + c.pending.take(n)),
{
    assert(c.pending.take(n) + c.pending.skip(n) =~= c.pending);
    assert(written + c.pending.take(n) + c.pending.skip(n) =~= written + c.pending);
}

/// A true copy is flushed only once every byte that was read is written, in the same order, and
/// counts them all.
pub proof fn flushed_copy_is_whole(c: CopyView, read: Seq<u8>, written: Seq<u8>)
    requires
        true_copy(c, read, written),
        c.step() == CopyStep::Flush,
    ensures
        written == read,
        c.amount == read.len(),
        c.done,
{
    assert(c.pending =~= Seq::empty());
    assert(written + c.pending =~= written);
}

/// What comes of bytes behind those that were collected: what stands up to the end of the first
/// separator, and the rest.
pub open spec fn separates(
    collected: Seq<u8>,
    data: Seq<u8>,
    sep: Seq<u8>,
    r: SeparatorRead,
) -> bool {
    let all = collected + data;
    if data.len() == 0 {
        r is ConnectionReset
    } else {
        match text::first_at(all, sep, 0) {
            Some(k) => {
                let end = k + sep.len();
                &&& r is Done
                &&& buf::bytes_of(r->Done_0) == all.take(end)
                &&& buf::bytes_of(r->Done_1) == all.skip(end)
            },
            None => r is Again,
        }
    }
}

/// A read of a reader that was looked ahead into.
pub open spec fn reads_ahead(
    ahead: Seq<u8>,
    left: Seq<u8>,
    capacity: usize,
    r: ReadStep,
) -> bool {
    &&& ahead.len() == 0 ==> r is PassThrough && left == ahead
    &&& ahead.len() > 0 ==> {
        let n = fits(ahead.len(), capacity);
        &&& r is Data
        &&& r->Data_0@ == ahead.take(n)
        &&& left == ahead.skip(n)
    }
}

/// Reading up to a separator gives everything up to it, with it, and keeps everything behind it:
/// it is done exactly when the separator is there, and nothing but an end of the data stops it
/// before.
pub proof fn split_is_at_the_first_separator(
    collected: Seq<u8>,
    data: Seq<u8>,
    sep: Seq<u8>,
    r: SeparatorRead,
    k: int,
)
    requires
        separates(collected, data, sep, r),
        data.len() > 0,
        sep.len() > 0,
        text::occurs_at(collected + data, sep, k),
        forall|j: int| 0 <= j < k ==> !text::occurs_at(collected + data, sep, j),
    ensures
        r is Done,
        buf::bytes_of(r->Done_0).len() == k + sep.len(),
        buf::bytes_of(r->Done_0).skip(k) == sep,
        buf::bytes_of(r->Done_0) + buf::bytes_of(r->Done_1) == collected + data,
{
    let all = collected + data;
    text::lemma_first_at(all, sep, 0);
    assert(text::first_at(all, sep, 0) == Some(k));
    let end = k + sep.len();
    assert(all.take(end).skip(k) =~= all.subrange(k, end));
    assert(all.take(end) + all.skip(end) =~= all);
}

/// Without a separator more is read, and an end of the data before it is an error.
pub proof fn reading_goes_on_without_a_separator(
    collected: Seq<u8>,
    data: Seq<u8>,
    sep: Seq<u8>,
    r: SeparatorRead,
)
    requires
        separates(collected, data, sep, r),
        forall|j: int| 0 <= j ==> !text::occurs_at(collected + data, sep, j),
    ensures
        r is ConnectionReset <==> data.len() == 0,
        r is Again <==> data.len() > 0,
{
    text::lemma_first_at(collected + data, sep, 0);
}

/// What was looked at is read first, in order and without loss, before the reader itself is read.
pub proof fn looked_at_bytes_are_read_first(
    ahead: Seq<u8>,
    left: Seq<u8>,
    capacity: usize,
    r: ReadStep,
)
    requires
        reads_ahead(ahead, left, capacity, r),
    ensures
        r is PassThrough <==> ahead.len() == 0,
        r is Data ==> {
            &&& r->Data_0@ + left == ahead
            &&& r->Data_0@.len() <= capacity
            &&& r->Data_0@.len() == capacity || left.len() == 0
        },
{
    let n = fits(ahead.len(), capacity);
    assert(ahead.take(n) + ahead.skip(n) =~= ahead);
}

} // verus!
