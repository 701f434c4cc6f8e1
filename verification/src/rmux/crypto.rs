//! Encryption of the events of a session.
//!
//! The header is two `skip32` words, the body is sealed with an AEAD. The header's key follows a
//! counter of the events; the AEAD's nonces follow a counter of the sealed bodies, one for each
//! direction.

use bytes::BytesMut;
use vstd::prelude::*;
use crate::codec;
use crate::cipher;
use crate::buf;
use crate::buf::{buf_advance, buf_extend, buf_len, buf_new, buf_slice};
use crate::cipher::{
    header_key_of, nonce_of, open, padded_key, seal, skip32_decode, skip32_encode, Cipher, TAG_LEN,
};
use crate::codec::{read_u32_le, u32_le};
use crate::mux::event::EventView;
use crate::rmux::event::{Event, Header, EVENT_HEADER_LEN, FLAG_WIN_UPDATE};
use crate::text::same_text;

verus! {

pub const METHOD_AES128_GCM: &'static str = "aes128gcm";

pub const METHOD_CHACHA20_POLY1305: &'static str = "chacha20poly1305";

pub const METHOD_NONE: &'static str = "none";

/// The cipher that a method's name stands for; `none` stands for no cipher.
pub open spec fn cipher_of(method: Seq<char>) -> Option<Option<Cipher>> {
    if method == METHOD_CHACHA20_POLY1305@ {
        Some(Some(Cipher::ChaCha20Poly1305))
    } else if method == METHOD_NONE@ {
        Some(None)
    } else if method == METHOD_AES128_GCM@ {
        Some(Some(Cipher::Aes128Gcm))
    } else {
        None
    }
}

/// The cipher that a method's name stands for, if it is known.
pub fn parse_method(method: &str) -> (r: Option<Option<Cipher>>)
    ensures
        r == cipher_of(method@),
{
    if same_text(method, METHOD_CHACHA20_POLY1305) {
        Some(Some(Cipher::ChaCha20Poly1305))
    } else if same_text(method, METHOD_NONE) {
        Some(None)
    } else if same_text(method, METHOD_AES128_GCM) {
        Some(Some(Cipher::Aes128Gcm))
    } else {
        None
    }
}

/// Keys and counters of one side of a session.
pub struct CryptoContext {
    key: Vec<u8>,
    pub nonce: u64,
    cipher: Option<Cipher>,
    seal_counter: u64,
    open_counter: u64,
}

/// What a context holds.
#[verifier::ext_equal]
pub struct ContextView {
    pub cipher: Option<Cipher>,
    pub key: Seq<u8>,
    /// Events encrypted and decrypted so far, on top of the agreed start.
    pub nonce: u64,
    /// Bodies sealed so far, on top of the agreed start.
    pub sealed: u64,
    /// Bodies opened so far, on top of the agreed start.
    pub opened: u64,
}

impl View for CryptoContext {
    type V = ContextView;

    closed spec fn view(&self) -> ContextView {
        ContextView {
            cipher: self.cipher,
            key: self.key@,
            nonce: self.nonce,
            sealed: self.seal_counter,
            opened: self.open_counter,
        }
    }
}

impl ContextView {
    pub open spec fn wf(self) -> bool {
        self.key.len() >= 32
    }

    /// The key of the header cipher for the next event.
    pub open spec fn skip_key(self) -> Seq<u8> {
        cipher::header_key(self.key, self.nonce)
    }

    /// The key of the body cipher.
    pub open spec fn body_key(self) -> Seq<u8> {
        self.key.take(self.cipher->Some_0.key_len() as int)
    }

    /// A body as it goes out; one that the cipher refuses goes out as it is.
    pub open spec fn sealed_body(self, body: Seq<u8>) -> Seq<u8> {
        match cipher::aead_sealed(
            self.cipher->Some_0,
            self.body_key(),
            cipher::nonce_bytes((self.sealed + 1) as u64),
            body,
        ) {
            Some(data) => data,
            None => body,
        }
    }

    /// The bytes of an event on the wire.
    pub open spec fn frame(self, ev: EventView) -> Seq<u8> {
        if self.cipher is None {
            ev.wire()
        } else {
            codec::le32(cipher::skip32_encoded(self.skip_key(), ev.flag_len)) + codec::le32(
                cipher::skip32_encoded(self.skip_key(), ev.stream_id),
            ) + if ev.body.len() == 0 {
                Seq::empty()
            } else {
                self.sealed_body(ev.body)
            }
        }
    }

    /// The context after an event has been encrypted.
    pub open spec fn after_encrypt(self, ev: EventView) -> ContextView {
        if self.cipher is None {
            self
        } else {
            ContextView {
                nonce: (self.nonce + 1) as u64,
                sealed: if ev.body.len() == 0 {
                    self.sealed
                } else {
                    (self.sealed + 1) as u64
                },
                ..self
            }
        }
    }

    /// The header that stands at the start of the bytes.
    pub open spec fn header_in(self, s: Seq<u8>) -> Header {
        if self.cipher is None {
            Header { flag_len: codec::le32_at(s, 0), stream_id: codec::le32_at(s, 4) }
        } else {
            Header {
                flag_len: cipher::skip32_decoded(self.skip_key(), codec::le32_at(s, 0)),
                stream_id: cipher::skip32_decoded(self.skip_key(), codec::le32_at(s, 4)),
            }
        }
    }

    /// The bytes that a body of this length takes up.
    pub open spec fn body_room(self, len: u32) -> int {
        if self.cipher is None {
            len as int
        } else {
            len + TAG_LEN
        }
    }

    /// The body that the bytes after the header give, if the cipher opens them.
    pub open spec fn body_in(self, s: Seq<u8>, len: u32) -> Option<Seq<u8>> {
        let data = s.subrange(8, 8 + self.body_room(len));
        if self.cipher is None {
            Some(data)
        } else {
            cipher::aead_opened(
                self.cipher->Some_0,
                self.body_key(),
                cipher::nonce_bytes((self.opened + 1) as u64),
                data,
            )
        }
    }

    /// The context after an event has been taken off the wire.
    pub open spec fn after_decrypt(self, with_body: bool) -> ContextView {
        if self.cipher is None {
            self
        } else {
            ContextView {
                nonce: (self.nonce + 1) as u64,
                opened: if with_body {
                    (self.opened + 1) as u64
                } else {
                    self.opened
                },
                ..self
            }
        }
    }
}

/// The event has no body on the wire: its length is zero, or it is a window grant.
pub open spec fn bodiless(h: Header) -> bool {
    h.flag() == FLAG_WIN_UPDATE || h.body_len() == 0
}

/// What taking one event off the wire comes to.
pub enum Taken {
    /// The event, and how many bytes it took up.
    Event(EventView, int),
    /// This many bytes are missing.
    Missing(int),
    /// The body does not open.
    Refused,
}

impl ContextView {
    /// What the bytes start with.
    pub open spec fn take(self, s: Seq<u8>) -> Taken {
        if s.len() < EVENT_HEADER_LEN {
            Taken::Missing(EVENT_HEADER_LEN - s.len())
        } else {
            let h = self.header_in(s);
            let need = EVENT_HEADER_LEN + self.body_room(h.body_len());
            if bodiless(h) {
                Taken::Event(
                    EventView { flag_len: h.flag_len, stream_id: h.stream_id, body: Seq::empty() },
                    8,
                )
            } else if s.len() < need {
                Taken::Missing(need - s.len())
            } else {
                match self.body_in(s, h.body_len()) {
                    Some(body) => Taken::Event(
                        EventView { flag_len: h.flag_len, stream_id: h.stream_id, body },
                        need,
                    ),
                    None => Taken::Refused,
                }
            }
        }
    }
}

/// The event can be told from its frame: its header announces the body that it has, and a window
/// grant has none.
pub open spec fn sendable(ev: EventView) -> bool {
    if ev.body.len() == 0 {
        bodiless(ev.header())
    } else {
        ev.framed() && ev.header().flag() != FLAG_WIN_UPDATE
    }
}

/// The bytes start with the frame that the context `c` makes of the event.
pub open spec fn arrives(s: Seq<u8>, c: ContextView, ev: EventView, rest: Seq<u8>) -> bool {
    s == c.frame(ev) + rest
}

impl ContextView {
    /// The body cipher takes the body, and adds its tag.
    pub open spec fn seals(self, body: Seq<u8>) -> bool {
        match cipher::aead_sealed(
            self.cipher->Some_0,
            self.body_key(),
            cipher::nonce_bytes((self.sealed + 1) as u64),
            body,
        ) {
            Some(data) => data.len() == body.len() + TAG_LEN,
            None => false,
        }
    }

    /// The frame of the event holds all of it.
    pub open spec fn frames(self, ev: EventView) -> bool {
        &&& sendable(ev)
        &&& self.cipher is Some && ev.body.len() > 0 ==> self.seals(ev.body)
    }

    /// The ciphers undo on these bytes what they did.
    spec fn inverts(self, s: Seq<u8>) -> bool {
        self.cipher is Some && s.len() >= EVENT_HEADER_LEN ==> {
            let h = self.header_in(s);
            let need = EVENT_HEADER_LEN + self.body_room(h.body_len());
            &&& forall|y: u32| #[trigger]
                cipher::skip32_encoded(self.skip_key(), y) == codec::le32_at(s, 0) ==> h.flag_len
                    == y
            &&& forall|y: u32| #[trigger]
                cipher::skip32_encoded(self.skip_key(), y) == codec::le32_at(s, 4) ==> h.stream_id
                    == y
            &&& !bodiless(h) && s.len() >= need ==> forall|plain: Seq<u8>| #[trigger]
                cipher::aead_sealed(
                    self.cipher->Some_0,
                    self.body_key(),
                    cipher::nonce_bytes((self.opened + 1) as u64),
                    plain,
                ) == Some(s.subrange(8, need)) ==> self.body_in(s, h.body_len()) == Some(plain)
        }
    }
}

impl ContextView {
    /// The two words of the event's header on the wire, and what follows them.
    spec fn frame_parts(self, ev: EventView) -> (u32, u32, Seq<u8>) {
        if self.cipher is None {
            (ev.flag_len, ev.stream_id, ev.body)
        } else {
            (
                cipher::skip32_encoded(self.skip_key(), ev.flag_len),
                cipher::skip32_encoded(self.skip_key(), ev.stream_id),
                if ev.body.len() == 0 {
                    Seq::empty()
                } else {
                    self.sealed_body(ev.body)
                },
            )
        }
    }
}

proof fn lemma_frame_parts(c: ContextView, ev: EventView)
    requires
        c.frames(ev),
    ensures
        ({
            let (w1, w2, rest) = c.frame_parts(ev);
            &&& c.frame(ev) == codec::le32(w1) + codec::le32(w2) + rest
            &&& c.frame(ev).len() == EVENT_HEADER_LEN + rest.len()
            &&& ev.body.len() == 0 ==> rest.len() == 0
            &&& ev.body.len() > 0 ==> rest.len() == c.body_room(ev.header().body_len())
        }),
{
}

/// Where the ciphers undo what they did, the header of a frame is read back.
proof fn lemma_header_is_read(c: ContextView, d: ContextView, ev: EventView, s: Seq<u8>)
    requires
        matched(c, d),
        s.len() >= EVENT_HEADER_LEN,
        s.subrange(0, 4) == codec::le32(c.frame_parts(ev).0),
        s.subrange(4, 8) == codec::le32(c.frame_parts(ev).1),
        d.inverts(s),
    ensures
        d.header_in(s) == ev.header(),
{
    let (w1, w2, _) = c.frame_parts(ev);
    codec::le32_reads_back(w1, s, 0);
    codec::le32_reads_back(w2, s, 4);
}

/// Where the ciphers undo what they did, a frame gives back its event.
proof fn lemma_frame_is_taken(
    c: ContextView,
    d: ContextView,
    ev: EventView,
    rest: Seq<u8>,
    s: Seq<u8>,
)
    requires
        matched(c, d),
        c.frames(ev),
        arrives(s, c, ev, rest),
        d.inverts(s),
    ensures
        d.take(s) == Taken::Event(ev, c.frame(ev).len() as int),
        s.skip(c.frame(ev).len() as int) == rest,
{
    let f = c.frame(ev);
    let (w1, w2, body) = c.frame_parts(ev);
    lemma_frame_parts(c, ev);
    assert(s.skip(f.len() as int) =~= rest);
    assert(s.subrange(0, 4) =~= codec::le32(w1));
    assert(s.subrange(4, 8) =~= codec::le32(w2));
    lemma_header_is_read(c, d, ev, s);
    if ev.body.len() > 0 {
        assert(s.subrange(8, 8 + d.body_room(ev.header().body_len())) =~= body);
    } else {
        assert(ev.body =~= Seq::empty());
    }
}

/// Where the ciphers undo what they did, the start of a frame is told to be incomplete, and no
/// more bytes are asked for than the rest of the frame has.
proof fn lemma_cut_frame_is_missing(c: ContextView, d: ContextView, ev: EventView, s: Seq<u8>)
    requires
        matched(c, d),
        c.frames(ev),
        arrives_in_part(s, c, ev),
        d.inverts(s),
    ensures
        d.take(s) is Missing,
        0 < d.take(s)->Missing_0 <= c.frame(ev).len() - s.len(),
{
    let (w1, w2, _) = c.frame_parts(ev);
    lemma_frame_parts(c, ev);
    if s.len() >= EVENT_HEADER_LEN {
        assert(s.subrange(0, 4) =~= codec::le32(w1));
        assert(s.subrange(4, 8) =~= codec::le32(w2));
        lemma_header_is_read(c, d, ev, s);
    }
}

/// The bytes are the start of the frame that the context `c` makes of the event, and not all.
pub open spec fn arrives_in_part(s: Seq<u8>, c: ContextView, ev: EventView) -> bool {
    s.len() < c.frame(ev).len() && s == c.frame(ev).take(s.len() as int)
}

/// What `c` encrypts next, `d` can decrypt next.
pub open spec fn matched(c: ContextView, d: ContextView) -> bool {
    &&& c.cipher == d.cipher
    &&& c.key == d.key
    &&& c.skip_key() == d.skip_key()
    &&& c.sealed == d.opened
}

/// Why no event could be taken off the wire: the bytes that are missing, or a reason.
pub type DecryptError = (u32, &'static str);

/// What `decrypt` gives for what taking an event comes to.
pub open spec fn reports(t: Taken, r: Result<Event, DecryptError>) -> bool {
    match t {
        Taken::Event(ev, _) => r is Ok && r->Ok_0@ == ev && r->Ok_0.remote,
        Taken::Missing(n) => r is Err && r->Err_0.0 == n && r->Err_0.1@ == ""@,
        Taken::Refused => r is Err && r->Err_0.0 == 0 && r->Err_0.1@ == "Decrypt error"@,
    }
}

/// An event is taken off the bytes `s`, which leaves `left`: an incomplete frame changes nothing,
/// and a body that does not open costs its header and its nonce.
pub open spec fn is_taken(
    pre: ContextView,
    post: ContextView,
    s: Seq<u8>,
    left: Seq<u8>,
    r: Result<Event, DecryptError>,
) -> bool {
    let t = pre.take(s);
    &&& reports(t, r)
    &&& match t {
        Taken::Event(ev, n) => left == s.skip(n) && post == pre.after_decrypt(
            !bodiless(ev.header()),
        ),
        Taken::Missing(_) => left == s && post == pre,
        Taken::Refused => left == s.skip(8) && post == (ContextView {
            opened: (pre.opened + 1) as u64,
            ..pre
        }),
    }
}

/// An event is encrypted: its frame goes behind the bytes `before`, which gives `after`, and the
/// frame of an event that can be told from it holds all of it.
pub open spec fn encrypts(
    pre: ContextView,
    post: ContextView,
    before: Seq<u8>,
    after: Seq<u8>,
    ev: EventView,
) -> bool {
    &&& post == pre.after_encrypt(ev)
    &&& after == before + pre.frame(ev)
    &&& sendable(ev) && ev.body.len() <= u32::MAX ==> pre.frames(ev)
}

/// The bytes `s` are decrypted once, which leaves `left`: an event is taken off them, and what a
/// matching context encrypted comes out again where it is complete, and is waited for where it is
/// not.
pub open spec fn decrypts(
    pre: ContextView,
    post: ContextView,
    s: Seq<u8>,
    left: Seq<u8>,
    r: Result<Event, DecryptError>,
) -> bool {
    &&& is_taken(pre, post, s, left, r)
    &&& forall|c: ContextView, ev: EventView, rest: Seq<u8>|
        (#[trigger] arrives(s, c, ev, rest) && matched(c, pre) && c.frames(ev)) ==> {
            &&& r is Ok
            &&& r->Ok_0@ == ev
            &&& left == rest
            &&& post == pre.after_decrypt(ev.body.len() > 0)
        }
    &&& forall|c: ContextView, ev: EventView|
        (#[trigger] arrives_in_part(s, c, ev) && matched(c, pre) && c.frames(ev)) ==> {
            &&& r is Err
            &&& r->Err_0.1@ == ""@
            &&& 0 < r->Err_0.0 <= c.frame(ev).len() - s.len()
        }
}

impl Clone for CryptoContext {
    fn clone(&self) -> (r: CryptoContext)
        ensures
            r@ == self@,
    {
        CryptoContext {
            key: self.key.clone(),
            nonce: self.nonce,
            cipher: self.cipher,
            seal_counter: self.seal_counter,
            open_counter: self.open_counter,
        }
    }
}

impl CryptoContext {
    pub open spec fn wf(self) -> bool {
        self@.wf()
    }

    pub fn new(method: &str, k: &str, nonce: u64) -> (r: CryptoContext)
        requires
            cipher_of(method@) is Some,
        ensures
            r.wf(),
            r@ == (ContextView {
                cipher: cipher_of(method@)->Some_0,
                key: cipher::padded(vstd::utf8::encode_utf8(k@)),
                nonce,
                sealed: nonce,
                opened: nonce,
            }),
    {
        let cipher = match parse_method(method) {
            Some(c) => c,
            None => None,
        };
        CryptoContext {
            key: padded_key(k),
            nonce,
            cipher,
            seal_counter: nonce,
            open_counter: nonce,
        }
    }

    /// The key of the body cipher.
    fn body_key(&self, c: Cipher) -> (r: &[u8])
        requires
            self.wf(),
            self@.cipher == Some(c),
        ensures
            r@ == self@.body_key(),
            r@.len() == c.key_len(),
    {
        let len: usize = match c {
            Cipher::ChaCha20Poly1305 => 32,
            Cipher::Aes128Gcm => 16,
        };
        let r = vstd::slice::slice_subrange(self.key.as_slice(), 0, len);
        assert(r@ =~= self@.body_key());
        r
    }

    /// Whether the numbers that events are encrypted with are not used up.
    pub fn can_encrypt(&self) -> (r: bool)
        ensures
            r == (self@.cipher is Some ==> self@.nonce < u64::MAX && self@.sealed < u64::MAX),
    {
        self.cipher.is_none() || (self.nonce < u64::MAX && self.seal_counter < u64::MAX)
    }

    /// Whether the numbers that events are decrypted with are not used up.
    pub fn can_decrypt(&self) -> (r: bool)
        ensures
            r == (self@.cipher is Some ==> self@.nonce < u64::MAX && self@.opened < u64::MAX),
    {
        self.cipher.is_none() || (self.nonce < u64::MAX && self.open_counter < u64::MAX)
    }

    /// Appends the event's frame to `out`.
    pub fn encrypt(&mut self, ev: &Event, out: &mut BytesMut)
        requires
            old(self).wf(),
            old(self)@.cipher is Some ==> old(self)@.nonce < u64::MAX && old(self)@.sealed
                < u64::MAX,
            buf::buf_of(*old(out)).len() + ev@.body.len() + 24 <= isize::MAX,
        ensures
            final(self).wf(),
            encrypts(
                old(self)@,
                final(self)@,
                buf::buf_of(*old(out)),
                buf::buf_of(*final(out)),
                ev@,
            ),
    {
        let ghost before = buf::buf_of(*out);
        let ghost pre = self@;
        match self.cipher {
            None => {
                let mut head: Vec<u8> = u32_le(ev.header.flag_len);
                let mut sid: Vec<u8> = u32_le(ev.header.stream_id);
                head.append(&mut sid);
                buf_extend(out, head.as_slice());
                buf_extend(out, ev.body.as_slice());
                assert(buf::buf_of(*out) =~= before + ev@.wire());
            },
            Some(c) => {
                let sk = header_key_of(&self.key, self.nonce);
                let mut head: Vec<u8> = u32_le(skip32_encode(&sk, ev.header.flag_len));
                let mut sid: Vec<u8> = u32_le(skip32_encode(&sk, ev.header.stream_id));
                head.append(&mut sid);
                buf_extend(out, head.as_slice());
                if ev.body.len() > 0 {
                    self.seal_counter = self.seal_counter + 1;
                    let nonce: Vec<u8> = nonce_of(self.seal_counter);
                    let sealed = seal(c, self.body_key(c), nonce.as_slice(), ev.body.clone());
                    match sealed {
                        Ok(data) => buf_extend(out, data.as_slice()),
                        Err(_) => buf_extend(out, ev.body.as_slice()),
                    }
                }
                self.nonce = self.nonce + 1;
                assert(buf::buf_of(*out) =~= before + pre.frame(ev@));
            },
        }
    }

    /// Takes the event at the start of `buf` off it.
    ///
    /// A frame that is not complete leaves everything as it is. A body that does not open leaves
    /// the header taken off and its nonce used up. Whatever a matching context encrypted comes
    /// out again, and takes up exactly its own bytes.
    pub fn decrypt(&mut self, buf: &mut BytesMut) -> (r: Result<Event, DecryptError>)
        requires
            old(self).wf(),
            old(self)@.cipher is Some ==> old(self)@.nonce < u64::MAX && old(self)@.opened
                < u64::MAX,
        ensures
            final(self).wf(),
            decrypts(
                old(self)@,
                final(self)@,
                buf::buf_of(*old(buf)),
                buf::buf_of(*final(buf)),
                r,
            ),
    {
        let ghost s = buf::buf_of(*buf);
        let ghost pre = self@;
        let r = self.take_event(buf);
        proof {
            assert forall|c: ContextView, ev: EventView, rest: Seq<u8>| #[trigger]
                arrives(s, c, ev, rest) && matched(c, pre) && c.frames(ev) implies r is Ok
                && r->Ok_0@ == ev && buf::buf_of(*buf) == rest && self@ == pre.after_decrypt(
                ev.body.len() > 0,
            ) by {
                lemma_frame_is_taken(c, pre, ev, rest, s);
            }
            assert forall|c: ContextView, ev: EventView| #[trigger]
                arrives_in_part(s, c, ev) && matched(c, pre) && c.frames(ev) implies r is Err
                && r->Err_0.1@ == ""@ && 0 < r->Err_0.0 <= c.frame(ev).len() - s.len() by {
                lemma_cut_frame_is_missing(c, pre, ev, s);
            }
        }
        r
    }

    fn take_event(&mut self, buf: &mut BytesMut) -> (r: Result<Event, DecryptError>)
        requires
            old(self).wf(),
            old(self)@.cipher is Some ==> old(self)@.nonce < u64::MAX && old(self)@.opened
                < u64::MAX,
        ensures
            final(self).wf(),
            old(self)@.inverts(buf::buf_of(*old(buf))),
            is_taken(
                old(self)@,
                final(self)@,
                buf::buf_of(*old(buf)),
                buf::buf_of(*final(buf)),
                r,
            ),
    {
        let ghost s = buf::buf_of(*buf);
        let ghost pre = self@;
        let have: usize = buf_len(buf);
        if have < EVENT_HEADER_LEN {
            return Err(((EVENT_HEADER_LEN - have) as u32, ""));
        }
        let w1: u32 = read_u32_le(buf_slice(buf), 0);
        let w2: u32 = read_u32_le(buf_slice(buf), 4);
        match self.cipher {
            None => {
                let header = Header { flag_len: w1, stream_id: w2 };
                if header.flags() == FLAG_WIN_UPDATE || header.len() == 0 {
                    buf_advance(buf, EVENT_HEADER_LEN);
                    return Ok(Event { header, body: Vec::new(), remote: true });
                }
                let dlen: usize = header.len() as usize;
                if have - EVENT_HEADER_LEN < dlen {
                    return Err(((dlen + EVENT_HEADER_LEN - have) as u32, ""));
                }
                let body = vstd::slice::slice_to_vec(
                    vstd::slice::slice_subrange(
                        buf_slice(buf),
                        EVENT_HEADER_LEN,
                        EVENT_HEADER_LEN + dlen,
                    ),
                );
                buf_advance(buf, EVENT_HEADER_LEN + dlen);
                Ok(Event { header, body, remote: true })
            },
            Some(c) => {
                let sk = header_key_of(&self.key, self.nonce);
                let header = Header {
                    flag_len: skip32_decode(&sk, w1),
                    stream_id: skip32_decode(&sk, w2),
                };
                assert(header == pre.header_in(s));
                if header.flags() == FLAG_WIN_UPDATE || header.len() == 0 {
                    buf_advance(buf, EVENT_HEADER_LEN);
                    self.nonce = self.nonce + 1;
                    return Ok(Event { header, body: Vec::new(), remote: true });
                }
                let dlen: usize = header.len() as usize;
                let expected_len: usize = dlen + TAG_LEN;
                if have - EVENT_HEADER_LEN < expected_len {
                    return Err(((expected_len + EVENT_HEADER_LEN - have) as u32, ""));
                }
                let data = vstd::slice::slice_to_vec(
                    vstd::slice::slice_subrange(
                        buf_slice(buf),
                        EVENT_HEADER_LEN,
                        EVENT_HEADER_LEN + expected_len,
                    ),
                );
                buf_advance(buf, EVENT_HEADER_LEN);
                self.open_counter = self.open_counter + 1;
                let nonce: Vec<u8> = nonce_of(self.open_counter);
                match open(c, self.body_key(c), nonce.as_slice(), data) {
                    Ok(body) => {
                        buf_advance(buf, expected_len);
                        self.nonce = self.nonce + 1;
                        assert(s.skip(8).skip(expected_len as int) =~= s.skip(8 + expected_len));
                        Ok(Event { header, body, remote: true })
                    },
                    Err(_) => Err((0, "Decrypt error")),
                }
            },
        }
    }
}

/// What the received bytes give.
pub enum EventPoll {
    Ready(Event),
    /// Read this many bytes more, then look again.
    NeedMore(u32),
    /// The session is broken, for this reason.
    Failed(&'static str),
}

/// The bytes to read when some are missing: small reads are made larger.
pub open spec fn read_size(missing: int) -> int {
    if 0 < missing < 4096 {
        4096
    } else {
        missing
    }
}

/// Looks for an event in what has been received.
pub fn poll_event(ctx: &mut CryptoContext, recv_buf: &mut BytesMut) -> (r: EventPoll)
    requires
        old(ctx).wf(),
        old(ctx)@.cipher is Some ==> old(ctx)@.nonce < u64::MAX && old(ctx)@.opened < u64::MAX,
    ensures
        final(ctx).wf(),
        match old(ctx)@.take(buf::buf_of(*old(recv_buf))) {
            Taken::Event(ev, n) => {
                &&& r is Ready
                &&& r->Ready_0@ == ev && r->Ready_0.remote
                &&& buf::buf_of(*final(recv_buf)) == buf::buf_of(*old(recv_buf)).skip(n)
                &&& final(ctx)@ == old(ctx)@.after_decrypt(!bodiless(ev.header()))
            },
            Taken::Missing(n) => r is NeedMore && r->NeedMore_0 == read_size(n) && buf::buf_of(
                *final(recv_buf),
            ) == buf::buf_of(*old(recv_buf)) && final(ctx)@ == old(ctx)@,
            Taken::Refused => {
                &&& r is Failed
                &&& r->Failed_0@ == "Decrypt error"@
                &&& buf::buf_of(*final(recv_buf)) == buf::buf_of(*old(recv_buf)).skip(8)
                &&& final(ctx)@ == (ContextView {
                    opened: (old(ctx)@.opened + 1) as u64,
                    ..old(ctx)@
                })
            },
        },
{
    match ctx.decrypt(recv_buf) {
        Ok(ev) => EventPoll::Ready(ev),
        Err((n, reason)) => {
            proof {
                reveal_strlit("");
                reveal_strlit("Decrypt error");
            }
            if !reason.is_empty() {
                return EventPoll::Failed(reason);
            }
            if n > 0 && n < 4096 {
                EventPoll::NeedMore(4096)
            } else {
                EventPoll::NeedMore(n)
            }
        },
    }
}

/// The frame of an event, ready to be written.
pub fn encrypted_event(ctx: &mut CryptoContext, ev: &Event) -> (r: BytesMut)
    requires
        old(ctx).wf(),
        old(ctx)@.cipher is Some ==> old(ctx)@.nonce < u64::MAX && old(ctx)@.sealed < u64::MAX,
        ev@.body.len() + 24 <= isize::MAX,
    ensures
        final(ctx).wf(),
        final(ctx)@ == old(ctx)@.after_encrypt(ev@),
        buf::buf_of(r) == old(ctx)@.frame(ev@),
        sendable(ev@) && ev@.body.len() <= u32::MAX ==> old(ctx)@.frames(ev@),
{
    let mut out = buf_new();
    ctx.encrypt(ev, &mut out);
    assert(buf::buf_of(out) =~= old(ctx)@.frame(ev@));
    out
}

/// Two contexts with the same keys and counters stay so through an event that one encrypts and
/// the other decrypts: each event in turn can be decrypted.
pub proof fn contexts_stay_matched(c: ContextView, d: ContextView, ev: EventView)
    requires
        matched(c, d),
        c.nonce == d.nonce,
        c.nonce < u64::MAX,
        c.sealed < u64::MAX,
        sendable(ev),
    ensures
        matched(c.after_encrypt(ev), d.after_decrypt(ev.body.len() > 0)),
        c.after_encrypt(ev).nonce == d.after_decrypt(ev.body.len() > 0).nonce,
{
}

/// Contexts made from the same method, key and start are matched, in both directions.
pub proof fn fresh_contexts_are_matched(c: ContextView)
    requires
        c.sealed == c.nonce,
        c.opened == c.nonce,
    ensures
        matched(c, c),
{
}

/// The events are encrypted one after the other into one buffer, with the contexts and the
/// buffer's contents between them.
pub open spec fn is_encrypting(
    cs: Seq<ContextView>,
    outs: Seq<Seq<u8>>,
    evs: Seq<EventView>,
) -> bool {
    &&& cs.len() == evs.len() + 1
    &&& outs.len() == evs.len() + 1
    &&& forall|i: int|
        0 <= i < evs.len() ==> encrypts(cs[i], cs[i + 1], outs[i], outs[i + 1], #[trigger] evs[i])
}

/// The results come of one decryption after the other of one buffer, with the contexts and the
/// buffer's contents between them.
pub open spec fn is_decrypting(
    ds: Seq<ContextView>,
    bufs: Seq<Seq<u8>>,
    rs: Seq<Result<Event, DecryptError>>,
) -> bool {
    &&& ds.len() == rs.len() + 1
    &&& bufs.len() == rs.len() + 1
    &&& forall|i: int|
        0 <= i < rs.len() ==> decrypts(ds[i], ds[i + 1], bufs[i], bufs[i + 1], #[trigger] rs[i])
}

/// The frames of the events from the `i`-th on.
spec fn frames_from(cs: Seq<ContextView>, evs: Seq<EventView>, i: int) -> Seq<u8>
    decreases evs.len() - i,
{
    if i >= evs.len() {
        Seq::empty()
    } else {
        cs[i].frame(evs[i]) + frames_from(cs, evs, i + 1)
    }
}

proof fn lemma_buffer_holds_frames(
    cs: Seq<ContextView>,
    outs: Seq<Seq<u8>>,
    evs: Seq<EventView>,
    i: int,
)
    requires
        is_encrypting(cs, outs, evs),
        0 <= i <= evs.len(),
    ensures
        outs.last() == outs[i] + frames_from(cs, evs, i),
    decreases evs.len() - i,
{
    if i < evs.len() {
        let ev = evs[i];
        lemma_buffer_holds_frames(cs, outs, evs, i + 1);
        assert(outs.last() =~= outs[i] + (cs[i].frame(ev) + frames_from(cs, evs, i + 1)));
    } else {
        assert(outs.last() =~= outs[i] + frames_from(cs, evs, i));
    }
}

/// Events that were encrypted in order into one buffer come out of it in order, as remote ones,
/// under a context that started as the encrypting one did: nothing is left of the buffer, and
/// both contexts have counted the same events.
pub proof fn events_come_back_in_order(
    cs: Seq<ContextView>,
    outs: Seq<Seq<u8>>,
    evs: Seq<EventView>,
    ds: Seq<ContextView>,
    bufs: Seq<Seq<u8>>,
    rs: Seq<Result<Event, DecryptError>>,
)
    requires
        is_encrypting(cs, outs, evs),
        is_decrypting(ds, bufs, rs),
        rs.len() == evs.len(),
        forall|i: int| 0 <= i < evs.len() ==> sendable(#[trigger] evs[i]),
        ds[0] == cs[0],
        cs[0].sealed == cs[0].nonce,
        cs[0].opened == cs[0].nonce,
        cs[0].cipher is Some ==> cs[0].nonce + evs.len() <= u64::MAX,
        outs[0] == Seq::<u8>::empty(),
        bufs[0] == outs.last(),
    ensures
        forall|i: int|
            0 <= i < evs.len() ==> {
                &&& (#[trigger] rs[i]) is Ok
                &&& rs[i]->Ok_0@ == evs[i]
                &&& rs[i]->Ok_0.remote
            },
        bufs.last() == Seq::<u8>::empty(),
        ds.last().nonce == cs.last().nonce,
{
    lemma_buffer_holds_frames(cs, outs, evs, 0);
    assert(bufs[0] =~= frames_from(cs, evs, 0));
    lemma_decrypting_follows(cs, outs, evs, ds, bufs, rs, evs.len() as int);
}

proof fn lemma_decrypting_follows(
    cs: Seq<ContextView>,
    outs: Seq<Seq<u8>>,
    evs: Seq<EventView>,
    ds: Seq<ContextView>,
    bufs: Seq<Seq<u8>>,
    rs: Seq<Result<Event, DecryptError>>,
    n: int,
)
    requires
        is_encrypting(cs, outs, evs),
        is_decrypting(ds, bufs, rs),
        rs.len() == evs.len(),
        forall|i: int| 0 <= i < evs.len() ==> sendable(#[trigger] evs[i]),
        ds[0] == cs[0],
        cs[0].sealed == cs[0].nonce,
        cs[0].opened == cs[0].nonce,
        cs[0].cipher is Some ==> cs[0].nonce + evs.len() <= u64::MAX,
        bufs[0] == frames_from(cs, evs, 0),
        0 <= n <= evs.len(),
    ensures
        bufs[n] == frames_from(cs, evs, n),
        matched(cs[n], ds[n]),
        cs[n].cipher == cs[0].cipher,
        ds[n].nonce == cs[n].nonce,
        cs[n].cipher is Some ==> cs[n].nonce == cs[0].nonce + n && cs[n].sealed <= cs[n].nonce,
        forall|i: int|
            0 <= i < n ==> {
                &&& (#[trigger] rs[i]) is Ok
                &&& rs[i]->Ok_0@ == evs[i]
                &&& rs[i]->Ok_0.remote
            },
    decreases n,
{
    if n > 0 {
        let m = n - 1;
        lemma_decrypting_follows(cs, outs, evs, ds, bufs, rs, m);
        let ev = evs[m];
        let r = rs[m];
        assert(encrypts(cs[m], cs[n], outs[m], outs[n], ev));
        assert(decrypts(ds[m], ds[n], bufs[m], bufs[n], r));
        assert(arrives(bufs[m], cs[m], ev, frames_from(cs, evs, n)));
    }
}

/// How many of the first events have a body.
pub open spec fn bodies_before(evs: Seq<EventView>, i: int) -> nat
    decreases i,
{
    if i <= 0 {
        0
    } else {
        bodies_before(evs, i - 1) + if evs[i - 1].body.len() > 0 {
            1nat
        } else {
            0
        }
    }
}

proof fn lemma_bodies(evs: Seq<EventView>, i: int)
    requires
        0 <= i,
    ensures
        bodies_before(evs, i) <= i,
    decreases i,
{
    if i > 0 {
        lemma_bodies(evs, i - 1);
    }
}

/// With a cipher, every event has a header key of its own, and every body a counter of its own.
pub proof fn every_body_has_its_own_counter(
    cs: Seq<ContextView>,
    outs: Seq<Seq<u8>>,
    evs: Seq<EventView>,
    i: int,
)
    requires
        is_encrypting(cs, outs, evs),
        cs[0].cipher is Some,
        cs[0].nonce + evs.len() <= u64::MAX,
        cs[0].sealed + evs.len() <= u64::MAX,
        0 <= i <= evs.len(),
    ensures
        cs[i].nonce == cs[0].nonce + i,
        cs[i].sealed == cs[0].sealed + bodies_before(evs, i),
        cs[i].opened == cs[0].opened,
        cs[i].key == cs[0].key,
        cs[i].cipher == cs[0].cipher,
    decreases i,
{
    if i > 0 {
        every_body_has_its_own_counter(cs, outs, evs, i - 1);
        lemma_bodies(evs, i);
        assert(encrypts(cs[i - 1], cs[i], outs[i - 1], outs[i - 1 + 1], evs[i - 1]));
    }
}

/// With a cipher, what is written of an event is its header under the key of the header, and its
/// body sealed under the key and the counter after the last one used.
pub proof fn body_is_sealed_under_key_and_counter(
    pre: ContextView,
    post: ContextView,
    before: Seq<u8>,
    after: Seq<u8>,
    ev: EventView,
    c: Cipher,
)
    requires
        encrypts(pre, post, before, after, ev),
        pre.wf(),
        pre.cipher == Some(c),
        pre.sealed < u64::MAX,
        sendable(ev),
        0 < ev.body.len() <= u32::MAX,
    ensures
        ({
            let n = before.len() as int;
            let key = if c is Aes128Gcm {
                pre.key.take(16)
            } else {
                pre.key.take(32)
            };
            &&& after.len() == n + 24 + ev.body.len()
            &&& after.take(n) == before
            &&& codec::le32_at(after, n) == cipher::skip32_encoded(
                cipher::header_key(pre.key, pre.nonce),
                ev.flag_len,
            )
            &&& codec::le32_at(after, n + 4) == cipher::skip32_encoded(
                cipher::header_key(pre.key, pre.nonce),
                ev.stream_id,
            )
            &&& cipher::aead_sealed(
                c,
                key,
                codec::le64((pre.sealed + 1) as u64) + seq![0u8, 0, 0, 0],
                ev.body,
            ) == Some(after.skip(n + 8))
            &&& post.sealed == pre.sealed + 1
        }),
{
    let n = before.len() as int;
    let k = cipher::header_key(pre.key, pre.nonce);
    let a = cipher::skip32_encoded(k, ev.flag_len);
    let b = cipher::skip32_encoded(k, ev.stream_id);
    assert(pre.frames(ev));
    let data = pre.sealed_body(ev.body);
    assert(after =~= before + (codec::le32(a) + codec::le32(b)) + data);
    assert(after.take(n) =~= before);
    assert(after.subrange(n, n + 4) =~= codec::le32(a));
    assert(after.subrange(n + 4, n + 8) =~= codec::le32(b));
    codec::le32_reads_back(a, after, n);
    codec::le32_reads_back(b, after, n + 4);
    assert(after.skip(n + 8) =~= data);
}

/// Each method by its name: two ciphers, and none; any other name is no method.
pub proof fn methods_have_their_names(method: Seq<char>)
    ensures
        cipher_of(method) == if method == seq![
            'c',
            'h',
            'a',
            'c',
            'h',
            'a',
            '2',
            '0',
            'p',
            'o',
            'l',
            'y',
            '1',
            '3',
            '0',
            '5',
        ] {
            Some(Some(Cipher::ChaCha20Poly1305))
        } else if method == seq!['a', 'e', 's', '1', '2', '8', 'g', 'c', 'm'] {
            Some(Some(Cipher::Aes128Gcm))
        } else if method == seq!['n', 'o', 'n', 'e'] {
            Some(None)
        } else {
            None
        },
{
    reveal_strlit("chacha20poly1305");
    reveal_strlit("aes128gcm");
    reveal_strlit("none");
    assert("chacha20poly1305"@ =~= seq![
        'c',
        'h',
        'a',
        'c',
        'h',
        'a',
        '2',
        '0',
        'p',
        'o',
        'l',
        'y',
        '1',
        '3',
        '0',
        '5',
    ]);
    assert("aes128gcm"@ =~= seq!['a', 'e', 's', '1', '2', '8', 'g', 'c', 'm']);
    assert("none"@ =~= seq!['n', 'o', 'n', 'e']);
}

/// A decryption for which bytes are missing changes nothing; one whose body does not open costs
/// the header, and the number that the body was to be opened with is used up.
pub proof fn failed_decryption_keeps_the_rest(
    pre: ContextView,
    post: ContextView,
    s: Seq<u8>,
    left: Seq<u8>,
    r: Result<Event, DecryptError>,
)
    requires
        decrypts(pre, post, s, left, r),
        r is Err,
        pre.opened < u64::MAX,
    ensures
        r->Err_0.0 > 0 ==> left == s && post == pre,
        r->Err_0.0 == 0 ==> left == s.skip(8) && post.opened == pre.opened + 1 && post.nonce
            == pre.nonce && post.sealed == pre.sealed && post.key == pre.key,
        s.len() < 8 ==> r->Err_0.0 == 8 - s.len(),
{
}

/// A read asks for all that is missing, and for no less than four kilobytes.
pub proof fn reads_are_not_small(missing: int)
    requires
        missing > 0,
    ensures
        read_size(missing) >= missing,
        read_size(missing) >= 4096,
        missing >= 4096 ==> read_size(missing) == missing,
        missing < 4096 ==> read_size(missing) == 4096,
{
}

} // verus!
