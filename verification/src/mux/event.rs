//! Frames of the multiplexed connection: an eight byte header, then the body.
//!
//! The header holds two little-endian words. The first packs the frame's flag into its low
//! byte and the body's length into the other three; the second is the stream's id.

use bincode::config;
use bincode::error::EncodeError;
use bytes::Bytes;
use vstd::prelude::*;
use crate::codec;
use crate::buf;
use crate::buf::{bytes_from_vec, bytes_len, bytes_new, bytes_slice};
use crate::codec::{read_u32_le, u32_le};

verus! {

pub const FLAG_OPEN: u8 = 1;

pub const FLAG_FIN: u8 = 2;

pub const FLAG_SYN: u8 = 4;

pub const FLAG_DATA: u8 = 3;

pub const FLAG_PING: u8 = 5;

pub const FLAG_SHUTDOWN: u8 = 7;

pub const FLAG_AUTH: u8 = 6;

pub const FLAG_PONG: u8 = 8;

pub const FLAG_AUTH_ACK: u8 = 9;

pub const FLAG_REVERSE_OPEN: u8 = 10;

pub const FLAG_WIN_UPDATE: u8 = 11;

pub const EVENT_HEADER_LEN: usize = 8;

/// The largest body that a peer may announce.
pub const MAX_EVENT_BODY_LEN: u32 = 256 * 1024;

#[derive(Debug, Clone, Copy)]
pub struct Header {
    pub flag_len: u32,
    pub stream_id: u32,
}

/// A body length and a flag in one word. The length keeps its low 24 bits.
pub open spec fn pack(len: int, flag: u8) -> u32 {
    ((len % 0x100_0000) * 256 + flag) as u32
}

proof fn lemma_pack_bits(len: u32, flag: u8)
    ensures
        (len << 8) | (flag as u32) == pack(len as int, flag),
{
    assert((len << 8) | (flag as u32) == (len % 0x100_0000) * 256 + (flag as u32)) by (bit_vector);
}

proof fn lemma_unpack_bits(x: u32)
    ensures
        (x & 0xFF) as u8 == x % 256,
        x >> 8 == x / 256,
{
    assert((x & 0xFF) as u8 == x % 256) by (bit_vector);
    assert(x >> 8 == x / 256) by (bit_vector);
}

/// A length in bytes, cut to its low 32 bits, has the same low 24 bits.
pub(crate) proof fn lemma_pack_truncated(len: usize, flag: u8)
    ensures
        pack(len as u32 as int, flag) == pack(len as int, flag),
{
    let t: u32 = len as u32;
    assert((len as u32) % 0x100_0000 == len % 0x100_0000) by (bit_vector);
}

/// Packs a body length and a flag into the first word of a header.
pub fn get_flag_len(len: u32, flag: u8) -> (r: u32)
    ensures
        r == pack(len as int, flag),
{
    proof {
        lemma_pack_bits(len, flag);
    }
    (len << 8) | (flag as u32)
}

impl Header {
    /// The frame's flag.
    pub open spec fn flag(self) -> u8 {
        (self.flag_len % 256) as u8
    }

    /// The length that the header announces.
    pub open spec fn body_len(self) -> u32 {
        self.flag_len / 256
    }

    /// The eight bytes of the header.
    pub open spec fn bytes(self) -> Seq<u8> {
        codec::le32(self.flag_len) + codec::le32(self.stream_id)
    }

    fn set_flag_len(&mut self, len: u32, flag: u8)
        ensures
            final(self).flag_len == pack(len as int, flag),
            final(self).stream_id == old(self).stream_id,
    {
        self.flag_len = get_flag_len(len, flag);
    }

    pub fn flags(&self) -> (r: u8)
        ensures
            r == self.flag(),
    {
        proof {
            lemma_unpack_bits(self.flag_len);
        }
        (self.flag_len & 0xFF) as u8
    }

    pub fn len(&self) -> (r: u32)
        ensures
            r == self.body_len(),
    {
        proof {
            lemma_unpack_bits(self.flag_len);
        }
        self.flag_len >> 8
    }

    pub fn set_len(&mut self, v: u32)
        ensures
            final(self).body_len() == v % 0x100_0000,
            final(self).flag() == old(self).flag(),
            final(self).stream_id == old(self).stream_id,
    {
        let f: u8 = self.flags();
        self.set_flag_len(v, f);
    }

    pub fn set_flag(&mut self, v: u8)
        ensures
            final(self).flag() == v,
            final(self).body_len() == old(self).body_len(),
            final(self).stream_id == old(self).stream_id,
    {
        let l: u32 = self.len();
        self.set_flag_len(l, v);
    }
}

/// The word of a header gives back the flag, and the length up to 24 bits.
pub proof fn pack_unpacks(len: int, flag: u8, sid: u32)
    requires
        0 <= len,
    ensures
        (Header { flag_len: pack(len, flag), stream_id: sid }).flag() == flag,
        (Header { flag_len: pack(len, flag), stream_id: sid }).body_len() == len % 0x100_0000,
{
}

/// A header is determined by its flag, its length and its stream id.
pub proof fn header_is_its_fields(h: Header)
    ensures
        h.flag_len == pack(h.body_len() as int, h.flag()),
{
}

/// The request that opens a relayed stream.
pub struct OpenStreamEvent {
    pub proto: String,
    pub addr: String,
}

/// The first message of a client.
pub enum AuthRequest {
    Proxy,
    Register(RegisterRequest),
}

/// A client's request for reverse tunnels.
pub struct RegisterRequest {
    pub client_id: String,
    pub tunnels: Vec<TunnelEntry>,
}

pub struct TunnelEntry {
    pub local_addr: String,
    pub remote_port: u16,
    pub sni: Option<String>,
}

/// The answer to an `AuthRequest`.
pub enum AuthAck {
    Proxy,
    RegisterAck(RegisterAck),
}

pub struct RegisterAck {
    pub results: Vec<TunnelResult>,
}

pub struct TunnelResult {
    pub success: bool,
    pub remote_port: u16,
    pub sni: Option<String>,
    pub error: Option<String>,
}

#[derive(Debug)]
pub struct Event {
    pub header: Header,
    pub body: Bytes,
}

/// What an event holds.
#[verifier::ext_equal]
pub struct EventView {
    pub flag_len: u32,
    pub stream_id: u32,
    pub body: Seq<u8>,
}

impl View for Event {
    type V = EventView;

    open spec fn view(&self) -> EventView {
        EventView {
            flag_len: self.header.flag_len,
            stream_id: self.header.stream_id,
            body: buf::bytes_of(self.body),
        }
    }
}

impl EventView {
    pub open spec fn header(self) -> Header {
        Header { flag_len: self.flag_len, stream_id: self.stream_id }
    }

    /// The bytes of the event on the wire.
    pub open spec fn wire(self) -> Seq<u8> {
        self.header().bytes() + self.body
    }

    /// The header announces the length that the body has.
    pub open spec fn framed(self) -> bool {
        self.header().body_len() == self.body.len()
    }
}

/// The event with the given flag, stream and body, with the body's length in the header.
pub open spec fn event_of(flag: u8, sid: u32, body: Seq<u8>) -> EventView {
    EventView { flag_len: pack(body.len() as int, flag), stream_id: sid, body }
}

impl Clone for Event {
    fn clone(&self) -> (r: Event)
        ensures
            r@ == self@,
    {
        Event { header: self.header, body: self.body.clone() }
    }
}

impl Event {
    pub fn is_empty(&self) -> (r: bool)
        ensures
            r == (self.header.flag() == 0),
    {
        self.header.flags() == 0
    }
}

fn flagged_event(flag: u8, sid: u32, buf: Bytes) -> (ev: Event)
    ensures
        ev@ == event_of(flag, sid, buf::bytes_of(buf)),
{
    let len: usize = bytes_len(&buf);
    proof {
        lemma_pack_truncated(len, flag);
    }
    Event { header: Header { flag_len: get_flag_len(len as u32, flag), stream_id: sid }, body: buf }
}

pub fn new_empty_event() -> (ev: Event)
    ensures
        ev@ == event_of(0, 0, Seq::empty()),
{
    flagged_event(0, 0, bytes_new())
}

pub fn new_data_event(sid: u32, buf: Bytes) -> (ev: Event)
    ensures
        ev@ == event_of(FLAG_DATA, sid, buf::bytes_of(buf)),
{
    flagged_event(FLAG_DATA, sid, buf)
}

pub fn new_fin_event(sid: u32) -> (ev: Event)
    ensures
        ev@ == event_of(FLAG_FIN, sid, Seq::empty()),
{
    flagged_event(FLAG_FIN, sid, bytes_new())
}

pub fn new_shutdown_event(sid: u32) -> (ev: Event)
    ensures
        ev@ == event_of(FLAG_SHUTDOWN, sid, Seq::empty()),
{
    flagged_event(FLAG_SHUTDOWN, sid, bytes_new())
}

pub fn new_syn_event(sid: u32) -> (ev: Event)
    ensures
        ev@ == event_of(FLAG_SYN, sid, Seq::empty()),
{
    flagged_event(FLAG_SYN, sid, bytes_new())
}

/// A ping that carries no nonce.
pub fn new_ping_event() -> (ev: Event)
    ensures
        ev@ == event_of(FLAG_PING, 0, Seq::empty()),
{
    flagged_event(FLAG_PING, 0, bytes_new())
}

/// A ping whose nonce the matching pong echoes.
pub fn new_nonce_ping_event(nonce: u32) -> (ev: Event)
    ensures
        ev@ == event_of(FLAG_PING, 0, codec::le32(nonce)),
{
    flagged_event(FLAG_PING, 0, bytes_from_vec(u32_le(nonce)))
}

pub fn new_pong_event(nonce: u32) -> (ev: Event)
    ensures
        ev@ == event_of(FLAG_PONG, 0, codec::le32(nonce)),
{
    flagged_event(FLAG_PONG, 0, bytes_from_vec(u32_le(nonce)))
}

/// Grants the peer `increment` more bytes on the stream.
pub fn new_window_update_event(sid: u32, increment: u32) -> (ev: Event)
    ensures
        ev@ == event_of(FLAG_WIN_UPDATE, sid, codec::le32(increment)),
{
    flagged_event(FLAG_WIN_UPDATE, sid, bytes_from_vec(u32_le(increment)))
}

/// `bincode::error::EncodeError`, as the encoder returns it.
#[verifier::external_type_specification]
#[verifier::external_body]
pub struct ExEncodeError(EncodeError);

/// Why an event could not be made.
#[derive(Debug, PartialEq, Eq, Structural, Clone, Copy)]
pub enum EventError {
    /// The message could not be encoded.
    Encode,
}

/// A tunnel request as plain values.
pub type TunnelTuple = (String, u16, Option<String>);

/// A tunnel result as plain values.
pub type ResultTuple = (bool, u16, Option<String>, Option<String>);

/// The text of an optional string.
pub open spec fn text_of(s: Option<String>) -> Option<Seq<char>> {
    match s {
        Some(t) => Some(t@),
        None => None,
    }
}

pub open spec fn tunnel_tuples(v: Seq<TunnelTuple>) -> Seq<(Seq<char>, u16, Option<Seq<char>>)> {
    Seq::new(v.len(), |i: int| (v[i].0@, v[i].1, text_of(v[i].2)))
}

pub open spec fn result_tuples(v: Seq<ResultTuple>) -> Seq<
    (bool, u16, Option<Seq<char>>, Option<Seq<char>>),
> {
    Seq::new(v.len(), |i: int| (v[i].0, v[i].1, text_of(v[i].2), text_of(v[i].3)))
}

/// A number in as few bytes as it takes: one where it is at most 250, else two, four or eight, the
/// least significant first, behind 251, 252 or 253.
pub open spec fn varint(n: nat) -> Seq<u8> {
    if n <= 250 {
        seq![n as u8]
    } else if n <= 0xffff {
        seq![251u8, (n % 256) as u8, (n / 256) as u8]
    } else if n <= 0xffff_ffff {
        seq![252u8] + codec::le32(n as u32)
    } else {
        seq![253u8] + codec::le64(n as u64)
    }
}

/// A text behind the number of its bytes.
pub open spec fn packed_text(s: Seq<char>) -> Seq<u8> {
    let b = vstd::utf8::encode_utf8(s);
    varint(b.len()) + b
}

/// A text that may be missing: zero, or one and the text.
pub open spec fn packed_option(s: Option<Seq<char>>) -> Seq<u8> {
    match s {
        Some(t) => seq![1u8] + packed_text(t),
        None => seq![0u8],
    }
}

/// Tunnel requests, one after the other.
pub open spec fn packed_tunnels(v: Seq<(Seq<char>, u16, Option<Seq<char>>)>) -> Seq<u8>
    decreases v.len(),
{
    if v.len() == 0 {
        Seq::empty()
    } else {
        packed_tunnels(v.drop_last()) + packed_text(v.last().0) + varint(v.last().1 as nat)
            + packed_option(v.last().2)
    }
}

/// Tunnel results, one after the other.
pub open spec fn packed_results(
    v: Seq<(bool, u16, Option<Seq<char>>, Option<Seq<char>>)>,
) -> Seq<u8>
    decreases v.len(),
{
    if v.len() == 0 {
        Seq::empty()
    } else {
        packed_results(v.drop_last()) + seq![
            if v.last().0 {
                1u8
            } else {
                0
            },
        ] + varint(v.last().1 as nat) + packed_option(v.last().2) + packed_option(v.last().3)
    }
}

/// `bincode::encode_to_vec` in the standard configuration, on two texts: each stands behind the
/// number of its bytes. Writing into memory does not fail.
#[verifier::external_body]
fn encode_pair(a: &str, b: &str) -> (r: Result<Vec<u8>, EncodeError>)
    ensures
        r is Ok,
        r->Ok_0@ == packed_text(a@) + packed_text(b@),
{
    bincode::encode_to_vec((a, b), config::standard())
}

/// `bincode::encode_to_vec` in the standard configuration, on a number. Writing into memory does
/// not fail.
#[verifier::external_body]
fn encode_index(index: u32) -> (r: Result<Vec<u8>, EncodeError>)
    ensures
        r is Ok,
        r->Ok_0@ == varint(index as nat),
{
    bincode::encode_to_vec(index, config::standard())
}

/// `bincode::encode_to_vec` in the standard configuration, on a number, a text and a list of
/// triples: they stand one after the other, the list behind the number of its items. Writing into
/// memory does not fail.
#[verifier::external_body]
fn encode_register(index: u32, client_id: &str, tunnels: &Vec<TunnelTuple>) -> (r: Result<
    Vec<u8>,
    EncodeError,
>)
    ensures
        r is Ok,
        r->Ok_0@ == varint(index as nat) + packed_text(client_id@) + varint(tunnels@.len())
            + packed_tunnels(tunnel_tuples(tunnels@)),
{
    bincode::encode_to_vec((index, client_id, tunnels), config::standard())
}

/// `bincode::encode_to_vec` in the standard configuration, on a number and a list of quadruples:
/// the list stands behind the number of its items. Writing into memory does not fail.
#[verifier::external_body]
fn encode_results(index: u32, results: &Vec<ResultTuple>) -> (r: Result<Vec<u8>, EncodeError>)
    ensures
        r is Ok,
        r->Ok_0@ == varint(index as nat) + varint(results@.len()) + packed_results(
            result_tuples(results@),
        ),
{
    bincode::encode_to_vec((index, results), config::standard())
}

impl RegisterRequest {
    pub open spec fn tunnel_views(self) -> Seq<(Seq<char>, u16, Option<Seq<char>>)> {
        Seq::new(
            self.tunnels@.len(),
            |i: int|
                (
                    self.tunnels@[i].local_addr@,
                    self.tunnels@[i].remote_port,
                    text_of(self.tunnels@[i].sni),
                ),
        )
    }
}

impl AuthRequest {
    /// The bytes of the request on the wire: the variant's index, then its fields.
    pub open spec fn encoded(self) -> Seq<u8> {
        match self {
            AuthRequest::Proxy => varint(0),
            AuthRequest::Register(r) => varint(1) + packed_text(r.client_id@) + varint(
                r.tunnels@.len(),
            ) + packed_tunnels(r.tunnel_views()),
        }
    }
}

impl RegisterAck {
    pub open spec fn result_views(self) -> Seq<
        (bool, u16, Option<Seq<char>>, Option<Seq<char>>),
    > {
        Seq::new(
            self.results@.len(),
            |i: int|
                (
                    self.results@[i].success,
                    self.results@[i].remote_port,
                    text_of(self.results@[i].sni),
                    text_of(self.results@[i].error),
                ),
        )
    }
}

impl AuthAck {
    /// The bytes of the answer on the wire: the variant's index, then its fields.
    pub open spec fn encoded(self) -> Seq<u8> {
        match self {
            AuthAck::Proxy => varint(0),
            AuthAck::RegisterAck(a) => varint(1) + varint(a.results@.len()) + packed_results(
                a.result_views(),
            ),
        }
    }
}

fn clone_text(s: &Option<String>) -> (r: Option<String>)
    ensures
        text_of(r) == text_of(*s),
{
    match s {
        Some(t) => Some(t.clone()),
        None => None,
    }
}

/// Frames the outcome of an encoding.
fn framed_message(flag: u8, sid: u32, data: Result<Vec<u8>, EncodeError>) -> (r: Result<
    Event,
    EventError,
>)
    ensures
        match data {
            Ok(d) => r is Ok && r->Ok_0@ == event_of(flag, sid, d@),
            Err(_) => r == Err::<Event, EventError>(EventError::Encode),
        },
{
    match data {
        Ok(d) => Ok(flagged_event(flag, sid, bytes_from_vec(d))),
        Err(_) => Err(EventError::Encode),
    }
}

pub fn new_open_stream_event(sid: u32, msg: &OpenStreamEvent) -> (r: Result<Event, EventError>)
    ensures
        r is Ok,
        r->Ok_0@ == event_of(FLAG_OPEN, sid, packed_text(msg.proto@) + packed_text(msg.addr@)),
{
    framed_message(FLAG_OPEN, sid, encode_pair(msg.proto.as_str(), msg.addr.as_str()))
}

pub fn new_reverse_open_stream_event(sid: u32, msg: &OpenStreamEvent) -> (r: Result<
    Event,
    EventError,
>)
    ensures
        r is Ok,
        r->Ok_0@ == event_of(
            FLAG_REVERSE_OPEN,
            sid,
            packed_text(msg.proto@) + packed_text(msg.addr@),
        ),
{
    framed_message(FLAG_REVERSE_OPEN, sid, encode_pair(msg.proto.as_str(), msg.addr.as_str()))
}

pub fn new_auth_event(sid: u32, req: &AuthRequest) -> (r: Result<Event, EventError>)
    ensures
        r is Ok,
        r->Ok_0@ == event_of(FLAG_AUTH, sid, req.encoded()),
{
    let data = match req {
        AuthRequest::Proxy => encode_index(0),
        AuthRequest::Register(reg) => {
            let mut tuples: Vec<TunnelTuple> = Vec::new();
            let mut i: usize = 0;
            while i < reg.tunnels.len()
                invariant
                    i <= reg.tunnels@.len(),
                    tuples@.len() == i,
                    forall|j: int|
                        0 <= j < i ==> tunnel_tuples(tuples@)[j] == #[trigger] reg.tunnel_views()[j],
                decreases reg.tunnels@.len() - i,
            {
                let ghost before = tuples@;
                let t = &reg.tunnels[i];
                tuples.push((t.local_addr.clone(), t.remote_port, clone_text(&t.sni)));
                i += 1;
                assert(forall|j: int|
                    0 <= j < i - 1 ==> tunnel_tuples(tuples@)[j] == tunnel_tuples(before)[j]);
            }
            assert(tunnel_tuples(tuples@) =~= reg.tunnel_views());
            encode_register(1, reg.client_id.as_str(), &tuples)
        },
    };
    framed_message(FLAG_AUTH, sid, data)
}

pub fn new_auth_ack_event(sid: u32, ack: &AuthAck) -> (r: Result<Event, EventError>)
    ensures
        r is Ok,
        r->Ok_0@ == event_of(FLAG_AUTH_ACK, sid, ack.encoded()),
{
    let data = match ack {
        AuthAck::Proxy => encode_index(0),
        AuthAck::RegisterAck(a) => {
            let mut tuples: Vec<ResultTuple> = Vec::new();
            let mut i: usize = 0;
            while i < a.results.len()
                invariant
                    i <= a.results@.len(),
                    tuples@.len() == i,
                    forall|j: int|
                        0 <= j < i ==> result_tuples(tuples@)[j] == #[trigger] a.result_views()[j],
                decreases a.results@.len() - i,
            {
                let ghost before = tuples@;
                let t = &a.results[i];
                tuples.push((t.success, t.remote_port, clone_text(&t.sni), clone_text(&t.error)));
                i += 1;
                assert(forall|j: int|
                    0 <= j < i - 1 ==> result_tuples(tuples@)[j] == result_tuples(before)[j]);
            }
            assert(result_tuples(tuples@) =~= a.result_views());
            encode_results(1, &tuples)
        },
    };
    framed_message(FLAG_AUTH_ACK, sid, data)
}

/// The bytes that send the event: its header, then its body.
pub fn encode_event(ev: &Event) -> (r: Vec<u8>)
    ensures
        r@ == ev@.wire(),
{
    let mut out: Vec<u8> = encode_header(&ev.header);
    out.extend_from_slice(bytes_slice(&ev.body));
    assert(out@ =~= ev@.wire());
    out
}

/// The eight bytes of a header.
pub fn encode_header(h: &Header) -> (r: Vec<u8>)
    ensures
        r@ == h.bytes(),
        r@.len() == EVENT_HEADER_LEN,
{
    let mut out: Vec<u8> = u32_le(h.flag_len);
    let mut sid: Vec<u8> = u32_le(h.stream_id);
    out.append(&mut sid);
    out
}

/// An event that is being written in pieces: how much of its header and of its body has been
/// written so far.
pub struct EventWrite {
    header: Vec<u8>,
    body: Bytes,
    header_done: usize,
    body_done: usize,
}

/// A writer that takes no byte can never finish.
#[derive(Debug, PartialEq, Eq, Structural, Clone, Copy)]
pub struct WriteZero;

impl EventWrite {
    pub closed spec fn wf(self) -> bool {
        &&& self.header_done <= self.header@.len()
        &&& self.body_done <= buf::bytes_of(self.body).len()
        &&& self.body_done > 0 ==> self.header_done == self.header@.len()
    }

    /// What is left of the header.
    pub closed spec fn header_left(self) -> Seq<u8> {
        self.header@.skip(self.header_done as int)
    }

    /// What is left of the body.
    pub closed spec fn body_left(self) -> Seq<u8> {
        buf::bytes_of(self.body).skip(self.body_done as int)
    }

    /// The bytes that are still to be written.
    pub open spec fn left(self) -> Seq<u8> {
        self.header_left() + self.body_left()
    }

    pub fn new(ev: Event) -> (r: EventWrite)
        ensures
            r.wf(),
            r.left() == ev@.wire(),
    {
        let r = EventWrite {
            header: encode_header(&ev.header),
            body: ev.body,
            header_done: 0,
            body_done: 0,
        };
        assert(r.left() =~= ev@.wire());
        r
    }

    /// The two slices to hand to a vectored write.
    pub fn slices(&self) -> (r: (&[u8], &[u8]))
        requires
            self.wf(),
        ensures
            r.0@ == self.header_left(),
            r.1@ == self.body_left(),
    {
        let body = bytes_slice(&self.body);
        let h = vstd::slice::slice_subrange(
            self.header.as_slice(),
            self.header_done,
            self.header.len(),
        );
        let b = vstd::slice::slice_subrange(body, self.body_done, body.len());
        assert(h@ =~= self.header_left());
        assert(b@ =~= self.body_left());
        (h, b)
    }

    /// Whether everything has been written.
    pub fn is_done(&self) -> (r: bool)
        requires
            self.wf(),
        ensures
            r == (self.left().len() == 0),
    {
        self.header_done == self.header.len() && self.body_done == bytes_len(&self.body)
    }

    /// Takes note that the writer took the next `n` bytes. A count of zero is an error.
    pub fn advance(&mut self, n: usize) -> (r: Result<(), WriteZero>)
        requires
            old(self).wf(),
            n <= old(self).left().len(),
        ensures
            final(self).wf(),
            r is Err <==> n == 0,
            final(self).left() == old(self).left().skip(n as int),
    {
        let ghost before = self.left();
        if n == 0 {
            assert(self.left() =~= before.skip(0));
            return Err(WriteZero);
        }
        let header_left: usize = self.header.len() - self.header_done;
        let body_left: usize = bytes_len(&self.body) - self.body_done;
        assert(n <= header_left + body_left);
        if n >= header_left {
            let body_n: usize = n - header_left;
            self.header_done = self.header.len();
            self.body_done = self.body_done + body_n;
        } else {
            self.header_done = self.header_done + n;
        }
        assert(self.left() =~= before.skip(n as int));
        Ok(())
    }
}

/// Why the next event could not be read.
#[derive(Debug, PartialEq, Eq, Structural, Clone, Copy)]
pub enum ReadError {
    /// The stream ended inside the event.
    UnexpectedEof,
    /// The header announces a body of this many bytes, which is too large.
    TooLarge(u32),
}

/// The header that stands at the start of the bytes.
pub open spec fn header_at(s: Seq<u8>) -> Header {
    Header { flag_len: codec::le32_at(s, 0), stream_id: codec::le32_at(s, 4) }
}

/// Reads a header, and refuses one that announces too large a body.
pub fn decode_header(hbuf: &[u8]) -> (r: Result<Header, ReadError>)
    requires
        hbuf@.len() >= EVENT_HEADER_LEN,
    ensures
        header_at(hbuf@).body_len() > MAX_EVENT_BODY_LEN ==> r == Err::<Header, ReadError>(
            ReadError::TooLarge(header_at(hbuf@).body_len()),
        ),
        header_at(hbuf@).body_len() <= MAX_EVENT_BODY_LEN ==> r == Ok::<Header, ReadError>(
            header_at(hbuf@),
        ),
{
    let header = Header { flag_len: read_u32_le(hbuf, 0), stream_id: read_u32_le(hbuf, 4) };
    if header.len() > MAX_EVENT_BODY_LEN {
        Err(ReadError::TooLarge(header.len()))
    } else {
        Ok(header)
    }
}

/// The event that a header and the body that was read after it make.
pub fn assemble_event(header: Header, body: Vec<u8>) -> (ev: Event)
    ensures
        ev@ == (EventView { flag_len: header.flag_len, stream_id: header.stream_id, body: body@ }),
{
    Event { header, body: bytes_from_vec(body) }
}

/// What reading one event off the given bytes gives: the event and how many bytes it took.
pub open spec fn read_outcome(s: Seq<u8>) -> Result<(EventView, int), ReadError> {
    if s.len() < EVENT_HEADER_LEN {
        Err(ReadError::UnexpectedEof)
    } else {
        let h = header_at(s);
        let n = h.body_len();
        if n > MAX_EVENT_BODY_LEN {
            Err(ReadError::TooLarge(n))
        } else if s.len() < EVENT_HEADER_LEN + n {
            Err(ReadError::UnexpectedEof)
        } else {
            Ok(
                (
                    EventView {
                        flag_len: h.flag_len,
                        stream_id: h.stream_id,
                        body: s.subrange(8, 8 + n),
                    },
                    8 + n,
                ),
            )
        }
    }
}

/// Reads the event that stands at the start of the input.
pub fn read_event(input: &[u8]) -> (r: Result<(Event, usize), ReadError>)
    ensures
        match read_outcome(input@) {
            Ok((ev, n)) => r is Ok && r->Ok_0.0@ == ev && r->Ok_0.1 == n,
            Err(e) => r is Err && r->Err_0 == e,
        },
{
    if input.len() < EVENT_HEADER_LEN {
        return Err(ReadError::UnexpectedEof);
    }
    let header = match decode_header(input) {
        Ok(h) => h,
        Err(e) => return Err(e),
    };
    let n: usize = header.len() as usize;
    if input.len() - EVENT_HEADER_LEN < n {
        return Err(ReadError::UnexpectedEof);
    }
    let end: usize = EVENT_HEADER_LEN + n;
    let body = vstd::slice::slice_to_vec(vstd::slice::slice_subrange(input, EVENT_HEADER_LEN, end));
    Ok((assemble_event(header, body), end))
}

/// What was written is read back: the bytes of a well-framed event of admissible size, whatever
/// follows them, give that event and take up exactly its bytes.
pub proof fn written_event_reads_back(ev: EventView, rest: Seq<u8>)
    requires
        ev.framed(),
        ev.body.len() <= MAX_EVENT_BODY_LEN,
    ensures
        read_outcome(ev.wire() + rest) == Ok::<(EventView, int), ReadError>(
            (ev, ev.wire().len() as int),
        ),
{
    let s = ev.wire() + rest;
    assert(s.subrange(0, 4) =~= codec::le32(ev.flag_len));
    assert(s.subrange(4, 8) =~= codec::le32(ev.stream_id));
    codec::le32_reads_back(ev.flag_len, s, 0);
    codec::le32_reads_back(ev.stream_id, s, 4);
    assert(s.subrange(8, (8 + ev.body.len()) as int) =~= ev.body);
}

/// What was read is what would be written: the bytes that an event took up are its own.
pub proof fn read_event_writes_back(s: Seq<u8>)
    requires
        read_outcome(s) is Ok,
    ensures
        ({
            let (ev, n) = read_outcome(s)->Ok_0;
            ev.framed() && ev.wire() == s.take(n)
        }),
{
    let (ev, n) = read_outcome(s)->Ok_0;
    codec::le32_of_read(s, 0);
    codec::le32_of_read(s, 4);
    assert(ev.wire() =~= s.take(n));
}

/// An event on the wire starts with its flag; the length of its body follows in three bytes and the
/// number of its stream in four, the least significant first in both, and then the body.
pub proof fn wire_starts_with_flag_length_and_stream(flag: u8, sid: u32, body: Seq<u8>)
    requires
        body.len() < 0x100_0000,
    ensures
        ({
            let w = event_of(flag, sid, body).wire();
            let n = body.len();
            &&& w.len() == 8 + n
            &&& w[0] == flag
            &&& w[1] == n % 256 && w[2] == n / 256 % 256 && w[3] == n / 65536
            &&& w[4] == sid % 256 && w[5] == sid / 256 % 256
            &&& w[6] == sid / 65536 % 256 && w[7] == sid / 16777216
            &&& w.skip(8) == body
        }),
{
    let ev = event_of(flag, sid, body);
    let w = ev.wire();
    let n = body.len() as int;
    let fl = pack(n, flag);
    assert(fl == n * 256 + flag);
    assert(fl as int / 256 == n);
    assert(fl as int / 65536 == n / 256);
    assert(fl as int / 16777216 == n / 65536);
    assert(w[0] == codec::le32(fl)[0]);
    assert(w[1] == codec::le32(fl)[1]);
    assert(w[2] == codec::le32(fl)[2]);
    assert(w[3] == codec::le32(fl)[3]);
    assert(w.skip(8) =~= body);
}

/// The first byte of an event tells what it is, and no two kinds share one.
pub proof fn kinds_have_their_first_byte(sid: u32, body: Seq<u8>)
    requires
        body.len() < 0x100_0000,
    ensures
        event_of(FLAG_OPEN, sid, body).wire()[0] == 1,
        event_of(FLAG_FIN, sid, body).wire()[0] == 2,
        event_of(FLAG_DATA, sid, body).wire()[0] == 3,
        event_of(FLAG_SYN, sid, body).wire()[0] == 4,
        event_of(FLAG_PING, sid, body).wire()[0] == 5,
        event_of(FLAG_AUTH, sid, body).wire()[0] == 6,
        event_of(FLAG_SHUTDOWN, sid, body).wire()[0] == 7,
        event_of(FLAG_PONG, sid, body).wire()[0] == 8,
        event_of(FLAG_AUTH_ACK, sid, body).wire()[0] == 9,
        event_of(FLAG_REVERSE_OPEN, sid, body).wire()[0] == 10,
        event_of(FLAG_WIN_UPDATE, sid, body).wire()[0] == 11,
{
    wire_starts_with_flag_length_and_stream(FLAG_OPEN, sid, body);
    wire_starts_with_flag_length_and_stream(FLAG_FIN, sid, body);
    wire_starts_with_flag_length_and_stream(FLAG_DATA, sid, body);
    wire_starts_with_flag_length_and_stream(FLAG_SYN, sid, body);
    wire_starts_with_flag_length_and_stream(FLAG_PING, sid, body);
    wire_starts_with_flag_length_and_stream(FLAG_AUTH, sid, body);
    wire_starts_with_flag_length_and_stream(FLAG_SHUTDOWN, sid, body);
    wire_starts_with_flag_length_and_stream(FLAG_PONG, sid, body);
    wire_starts_with_flag_length_and_stream(FLAG_AUTH_ACK, sid, body);
    wire_starts_with_flag_length_and_stream(FLAG_REVERSE_OPEN, sid, body);
    wire_starts_with_flag_length_and_stream(FLAG_WIN_UPDATE, sid, body);
}

/// A client that only proxies says so in one byte. One that registers says one, who it is and how
/// many tunnels it wants, and the last of them ends the request: where to, which port, and the
/// name it is for where there is one.
pub proof fn registration_carries_its_tunnels(req: AuthRequest)
    ensures
        req is Proxy ==> req.encoded() == seq![0u8],
        match req {
            AuthRequest::Proxy => true,
            AuthRequest::Register(r) => {
                let n = r.tunnels@.len() as int;
                let rest = seq![1u8] + packed_text(r.client_id@) + varint(n as nat);
                &&& n == 0 ==> req.encoded() == rest
                &&& n > 0 ==> req.encoded() == rest + (packed_tunnels(r.tunnel_views().drop_last())
                    + packed_text(r.tunnels@[n - 1].local_addr@) + varint(
                    r.tunnels@[n - 1].remote_port as nat,
                ) + packed_option(text_of(r.tunnels@[n - 1].sni)))
                &&& r.tunnel_views().len() == n
                &&& forall|i: int|
                    0 <= i < n ==> (#[trigger] r.tunnel_views()[i]).0 == r.tunnels@[i].local_addr@
                        && r.tunnel_views()[i].1 == r.tunnels@[i].remote_port
                        && r.tunnel_views()[i].2 == text_of(r.tunnels@[i].sni)
            },
        },
{
    match req {
        AuthRequest::Proxy => {
            assert(req.encoded() =~= seq![0u8]);
        },
        AuthRequest::Register(r) => {
            let rest = seq![1u8] + packed_text(r.client_id@) + varint(r.tunnels@.len());
            assert(varint(1) =~= seq![1u8]);
            if r.tunnels@.len() == 0 {
                assert(req.encoded() =~= rest);
            }
        },
    }
}

/// The answer to a client that only proxies is one byte. The answer to one that registers is one,
/// how many tunnels were asked for, and what became of each: whether it is there, its port, the
/// name it is for and what went wrong.
pub proof fn every_tunnel_is_answered(ack: AuthAck)
    ensures
        ack is Proxy ==> ack.encoded() == seq![0u8],
        match ack {
            AuthAck::Proxy => true,
            AuthAck::RegisterAck(a) => {
                let n = a.results@.len() as int;
                &&& ack.encoded() == seq![1u8] + varint(n as nat) + packed_results(a.result_views())
                &&& a.result_views().len() == n
                &&& forall|i: int|
                    0 <= i < n ==> (#[trigger] a.result_views()[i]).0 == a.results@[i].success
                        && a.result_views()[i].1 == a.results@[i].remote_port
                        && a.result_views()[i].2 == text_of(a.results@[i].sni)
                        && a.result_views()[i].3 == text_of(a.results@[i].error)
            },
        },
{
    match ack {
        AuthAck::Proxy => {
            assert(ack.encoded() =~= seq![0u8]);
        },
        AuthAck::RegisterAck(a) => {
            assert(varint(1) =~= seq![1u8]);
        },
    }
}

} // verus!
