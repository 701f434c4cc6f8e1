//! Events behind a header of ten bytes: a version, a flag, the stream and the length of the body,
//! the numbers with their least significant byte first.

use bytes::BytesMut;
use vstd::prelude::*;
use crate::buf;
use crate::buf::{buf_advance, buf_extend, buf_len, buf_slice};
use crate::codec;
use crate::codec::{read_u32_le, u32_le};

verus! {

pub const FLAG_SYN: u8 = 0;

pub const FLAG_FIN: u8 = 1;

pub const FLAG_DATA: u8 = 2;

pub const FLAG_WIN_UPDATE: u8 = 3;

pub const FLAG_PING: u8 = 4;

pub const FLAG_PING_ACK: u8 = 5;

/// The bytes of a header.
pub const HEADER_LEN: usize = 10;

#[derive(Debug, PartialEq, Eq, Structural, Clone, Copy)]
pub struct Header {
    pub version: u8,
    pub flags: u8,
    pub stream_id: u32,
    pub len: u32,
}

#[derive(Debug)]
pub struct Event {
    pub header: Header,
    pub body: Vec<u8>,
}

impl Header {
    /// The bytes of the header.
    pub open spec fn bytes(self) -> Seq<u8> {
        seq![self.version, self.flags] + codec::le32(self.stream_id) + codec::le32(self.len)
    }

    /// The header at the start of the bytes.
    pub open spec fn of(s: Seq<u8>) -> Header {
        Header {
            version: s[0],
            flags: s[1],
            stream_id: codec::le32_at(s, 2),
            len: codec::le32_at(s, 6),
        }
    }
}

impl Event {
    /// The bytes that send the event. The length is that of the body, whatever the header says.
    pub open spec fn wire(self) -> Seq<u8> {
        (Header { len: self.body@.len() as u32, ..self.header }).bytes() + self.body@
    }
}

/// A header and a body.
#[verifier::ext_equal]
pub struct FrameView {
    pub header: Header,
    pub body: Seq<u8>,
}

impl View for Event {
    type V = FrameView;

    open spec fn view(&self) -> FrameView {
        FrameView { header: self.header, body: self.body@ }
    }
}

fn event_with(flags: u8, stream_id: u32, len: u32, body: Vec<u8>) -> (r: Event)
    ensures
        r@ == (FrameView { header: Header { version: 0, flags, stream_id, len }, body: body@ }),
{
    Event { header: Header { version: 0, flags, stream_id, len }, body }
}

/// Data that is an encoded message.
pub fn new_message_event(sid: u32, data: &[u8]) -> (r: Event)
    ensures
        r@ == (FrameView {
            header: Header {
                version: 0,
                flags: FLAG_DATA,
                stream_id: sid,
                len: data@.len() as u32,
            },
            body: data@,
        }),
{
    new_data_event(sid, data)
}

pub fn new_fin_event(sid: u32) -> (r: Event)
    ensures
        r@ == (FrameView {
            header: Header { version: 0, flags: FLAG_FIN, stream_id: sid, len: 0 },
            body: Seq::empty(),
        }),
{
    event_with(FLAG_FIN, sid, 0, Vec::new())
}

pub fn new_data_event(sid: u32, data: &[u8]) -> (r: Event)
    ensures
        r@ == (FrameView {
            header: Header {
                version: 0,
                flags: FLAG_DATA,
                stream_id: sid,
                len: data@.len() as u32,
            },
            body: data@,
        }),
{
    event_with(FLAG_DATA, sid, data.len() as u32, vstd::slice::slice_to_vec(data))
}

/// An event whose header holds a window, and that has no body.
pub fn new_window_update_event(sid: u32, len: u32) -> (r: Event)
    ensures
        r@ == (FrameView {
            header: Header { version: 0, flags: FLAG_DATA, stream_id: sid, len },
            body: Seq::empty(),
        }),
{
    event_with(FLAG_DATA, sid, len, Vec::new())
}

/// Appends the bytes of the event.
pub fn encode_event(ev: &Event, out: &mut BytesMut)
    requires
        buf::buf_of(*old(out)).len() + HEADER_LEN + ev.body@.len() <= isize::MAX,
    ensures
        buf::buf_of(*final(out)) == buf::buf_of(*old(out)) + ev.wire(),
{
    let ghost pre = buf::buf_of(*out);
    let mut head: Vec<u8> = Vec::with_capacity(HEADER_LEN);
    head.push(ev.header.version);
    head.push(ev.header.flags);
    let mut sid: Vec<u8> = u32_le(ev.header.stream_id);
    head.append(&mut sid);
    let mut len: Vec<u8> = u32_le(ev.body.len() as u32);
    head.append(&mut len);
    proof {
        let h = Header { len: ev.body@.len() as u32, ..ev.header };
        assert(head@ =~= h.bytes());
        assert(pre + h.bytes() + ev.body@ =~= pre + ev.wire());
    }
    buf_extend(out, head.as_slice());
    buf_extend(out, ev.body.as_slice());
}

fn read_header(s: &[u8]) -> (r: Header)
    requires
        s@.len() >= HEADER_LEN,
    ensures
        r == Header::of(s@),
{
    Header {
        version: s[0],
        flags: s[1],
        stream_id: read_u32_le(s, 2),
        len: read_u32_le(s, 6),
    }
}

/// What the bytes hold at their start: an event and the number of its bytes, or nothing yet.
pub open spec fn frame_in(s: Seq<u8>) -> Option<(FrameView, int)> {
    let h = Header::of(s);
    if s.len() < HEADER_LEN || s.len() < HEADER_LEN + h.len {
        None
    } else {
        Some(
            (
                FrameView {
                    header: h,
                    body: s.subrange(HEADER_LEN as int, HEADER_LEN + h.len as int),
                },
                HEADER_LEN + h.len as int,
            ),
        )
    }
}

/// Frames events.
pub struct EventCodec;

impl EventCodec {
    pub fn new() -> (r: EventCodec)
        ensures
            r == EventCodec,
    {
        EventCodec
    }

    /// Appends the bytes of the event.
    pub fn encode(&self, ev: &Event, out: &mut BytesMut)
        requires
            buf::buf_of(*old(out)).len() + HEADER_LEN + ev.body@.len() <= isize::MAX,
        ensures
            buf::buf_of(*final(out)) == buf::buf_of(*old(out)) + ev.wire(),
    {
        encode_event(ev, out);
    }

    /// Takes the event at the start of the buffer, once all of it has arrived.
    pub fn decode(&self, b: &mut BytesMut) -> (r: Option<Event>)
        ensures
            match frame_in(buf::buf_of(*old(b))) {
                Some((frame, n)) => {
                    &&& r is Some
                    &&& r->Some_0@ == frame
                    &&& buf::buf_of(*final(b)) == buf::buf_of(*old(b)).skip(n)
                },
                None => r is None && buf::buf_of(*final(b)) == buf::buf_of(*old(b)),
            },
    {
        let len: usize = buf_len(b);
        if len < HEADER_LEN {
            return None;
        }
        let header = read_header(buf_slice(b));
        let n: usize = header.len as usize;
        if len - HEADER_LEN < n {
            return None;
        }
        let end: usize = HEADER_LEN + n;
        let body = vstd::slice::slice_to_vec(
            vstd::slice::slice_subrange(buf_slice(b), HEADER_LEN, end),
        );
        buf_advance(b, end);
        Some(Event { header, body })
    }
}

/// The event that is read one at a time: data has a body, and anything else has none.
pub open spec fn read_in(s: Seq<u8>) -> Option<(FrameView, int)> {
    let h = Header::of(s);
    if s.len() < HEADER_LEN {
        None
    } else if h.flags != FLAG_DATA {
        Some((FrameView { header: h, body: Seq::empty() }, HEADER_LEN as int))
    } else {
        frame_in(s)
    }
}

/// Reads one event from the start of the input; `None` where the input ends too early.
pub fn read_event(input: &[u8]) -> (r: Option<(Event, usize)>)
    ensures
        match read_in(input@) {
            Some((frame, n)) => r is Some && r->Some_0.0@ == frame && r->Some_0.1 == n,
            None => r is None,
        },
{
    let len: usize = input.len();
    if len < HEADER_LEN {
        return None;
    }
    let header = read_header(input);
    if header.flags != FLAG_DATA {
        let ev = Event { header, body: Vec::new() };
        assert(ev.body@ =~= Seq::empty());
        return Some((ev, HEADER_LEN));
    }
    let n: usize = header.len as usize;
    if len - HEADER_LEN < n {
        return None;
    }
    let end: usize = HEADER_LEN + n;
    let body = vstd::slice::slice_to_vec(vstd::slice::slice_subrange(input, HEADER_LEN, end));
    Some((Event { header, body }, end))
}

/// What was written is read back, whatever follows it: the event whose header has the length of its
/// body.
pub proof fn written_frame_reads_back(ev: Event, rest: Seq<u8>)
    requires
        ev.body@.len() <= u32::MAX,
        ev.header.len == ev.body@.len(),
    ensures
        frame_in(ev.wire() + rest) == Some((ev@, ev.wire().len() as int)),
        ev.header.flags == FLAG_DATA || ev.body@.len() == 0 ==> read_in(ev.wire() + rest) == Some(
            (ev@, ev.wire().len() as int),
        ),
{
    let s = ev.wire() + rest;
    assert(s.subrange(2, 6) =~= codec::le32(ev.header.stream_id));
    assert(s.subrange(6, 10) =~= codec::le32(ev.header.len));
    codec::le32_reads_back(ev.header.stream_id, s, 2);
    codec::le32_reads_back(ev.header.len, s, 6);
    assert(s.subrange(10, 10 + ev.body@.len() as int) =~= ev.body@);
    if ev.body@.len() == 0 {
        assert(ev.body@ =~= Seq::empty());
    }
}

/// An event is taken only once all its bytes have arrived, and later bytes do not change it.
pub proof fn later_bytes_change_no_frame(s: Seq<u8>, more: Seq<u8>)
    requires
        frame_in(s) is Some,
    ensures
        frame_in(s + more) == frame_in(s),
{
    let h = Header::of(s);
    assert(Header::of(s + more) == h);
    assert((s + more).subrange(10, 10 + h.len as int) =~= s.subrange(10, 10 + h.len as int));
}

/// Only data has a body when events are read one by one: any other event is its header, whatever
/// length that gives.
pub proof fn only_data_has_a_body(h: Header, rest: Seq<u8>)
    requires
        h.flags != FLAG_DATA,
    ensures
        read_in(h.bytes() + rest) == Some((FrameView { header: h, body: Seq::empty() }, 10int)),
{
    let s = h.bytes() + rest;
    assert(s.subrange(2, 6) =~= codec::le32(h.stream_id));
    assert(s.subrange(6, 10) =~= codec::le32(h.len));
    codec::le32_reads_back(h.stream_id, s, 2);
    codec::le32_reads_back(h.len, s, 6);
}

/// A frame starts with the version and the flags, then the number of the stream and the length of
/// the body, each in four bytes with the least significant first, and then the body.
pub proof fn frame_starts_with_ten_bytes(ev: Event)
    requires
        ev.body@.len() <= u32::MAX,
    ensures
        ({
            let w = ev.wire();
            let id = ev.header.stream_id;
            let n = ev.body@.len();
            &&& w.len() == 10 + n
            &&& w[0] == ev.header.version
            &&& w[1] == ev.header.flags
            &&& w[2] == id % 256 && w[3] == id / 256 % 256 && w[4] == id / 65536 % 256 && w[5] == id
                / 16777216
            &&& w[6] == n % 256 && w[7] == n / 256 % 256
            &&& w.skip(10) == ev.body@
        }),
{
    assert(ev.wire().skip(10) =~= ev.body@);
}

} // verus!
