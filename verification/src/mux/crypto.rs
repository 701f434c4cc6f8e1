//! Encryption of the frames of a connection, with one counter for each direction.
//!
//! The header is two `skip32` words, the body is sealed with an AEAD. With AES a CRC-32 of the
//! sealed body follows it.

use bytes::BytesMut;
use vstd::prelude::*;
use crate::rmux::crypto;
use crate::codec;
use crate::cipher;
use crate::buf;
use crate::buf::{
    buf_advance, buf_extend, buf_len, buf_slice, bytes_from_vec, bytes_len, bytes_new, bytes_slice,
};
use crate::cipher::{
    crc32_checksum, header_key_of, nonce_of, open, padded_key, seal, skip32_decode, skip32_encode,
    Cipher, TAG_LEN,
};
use crate::codec::{read_u32_le, u32_le};
use crate::mux::event::{encode_header, Event, EventView, Header, EVENT_HEADER_LEN, FLAG_WIN_UPDATE};
use crate::rmux::crypto::{parse_method, DecryptError};

pub use crate::rmux::crypto::{METHOD_AES128_GCM, METHOD_CHACHA20_POLY1305, METHOD_NONE};

verus! {

/// The length of the checksum that follows a body sealed with AES.
pub const CRC_LEN: usize = 4;

/// Keys and counters of one side of a connection.
pub struct CryptoContext {
    key: Vec<u8>,
    pub encrypt_nonce: u64,
    pub decrypt_nonce: u64,
    cipher: Option<Cipher>,
}

/// What a context holds.
#[verifier::ext_equal]
pub struct ContextView {
    pub cipher: Option<Cipher>,
    pub key: Seq<u8>,
    pub encrypt_nonce: u64,
    pub decrypt_nonce: u64,
}

impl View for CryptoContext {
    type V = ContextView;

    closed spec fn view(&self) -> ContextView {
        ContextView {
            cipher: self.cipher,
            key: self.key@,
            encrypt_nonce: self.encrypt_nonce,
            decrypt_nonce: self.decrypt_nonce,
        }
    }
}

pub open spec fn zeros(n: nat) -> Seq<u8> {
    Seq::new(n, |i: int| 0u8)
}

/// The event has no body on the wire.
pub open spec fn bodiless(h: Header) -> bool {
    h.flag() == FLAG_WIN_UPDATE || h.body_len() == 0
}

/// What taking one event off the wire comes to.
pub enum Taken {
    /// The event, and how many bytes it took up.
    Event(EventView, int),
    /// This many bytes are missing.
    Missing(int),
    /// The body does not open.
    Refused,
}

impl ContextView {
    pub open spec fn wf(self) -> bool {
        self.key.len() >= 32
    }

    /// The key of the body cipher.
    pub open spec fn body_key(self) -> Seq<u8> {
        self.key.take(self.cipher->Some_0.key_len() as int)
    }

    /// What the body cipher makes of the next body.
    pub open spec fn sealing(self, body: Seq<u8>) -> Option<Seq<u8>> {
        cipher::aead_sealed(
            self.cipher->Some_0,
            self.body_key(),
            cipher::nonce_bytes(self.encrypt_nonce),
            body,
        )
    }

    /// What the body cipher makes of the next sealed body.
    pub open spec fn opening(self, data: Seq<u8>) -> Option<Seq<u8>> {
        cipher::aead_opened(
            self.cipher->Some_0,
            self.body_key(),
            cipher::nonce_bytes(self.decrypt_nonce),
            data,
        )
    }

    /// The bytes that follow a sealed body.
    pub open spec fn trailer_len(self) -> int {
        if self.cipher == Some(Cipher::Aes128Gcm) {
            CRC_LEN as int
        } else {
            0
        }
    }

    /// The header on the wire.
    pub open spec fn head(self, ev: EventView) -> Seq<u8> {
        if self.cipher is None {
            ev.header().bytes()
        } else {
            let k = cipher::header_key(self.key, self.encrypt_nonce);
            codec::le32(cipher::skip32_encoded(k, ev.flag_len)) + codec::le32(cipher::skip32_encoded(k, ev.stream_id))
        }
    }

    /// The body on the wire, behind what the buffer holds already. The checksum covers as many
    /// bytes as the sealed body has, from the ninth byte of the buffer on.
    pub open spec fn tail(self, before: Seq<u8>, ev: EventView) -> Seq<u8> {
        if self.cipher is None {
            ev.body
        } else if ev.body.len() == 0 {
            Seq::empty()
        } else {
            match self.sealing(ev.body) {
                Some(data) => if self.cipher == Some(Cipher::Aes128Gcm) {
                    let all = before + self.head(ev) + data;
                    data + codec::le32(cipher::crc32_ieee(all.subrange(8, (24 + ev.body.len()) as int)))
                } else {
                    data
                },
                None => ev.body + zeros((TAG_LEN + self.trailer_len()) as nat),
            }
        }
    }

    /// The bytes that encrypting the event appends to what the buffer holds.
    pub open spec fn frame(self, before: Seq<u8>, ev: EventView) -> Seq<u8> {
        self.head(ev) + self.tail(before, ev)
    }

    /// The header that stands at the start of the bytes.
    pub open spec fn header_in(self, s: Seq<u8>) -> Header {
        if self.cipher is None {
            Header { flag_len: codec::le32_at(s, 0), stream_id: codec::le32_at(s, 4) }
        } else {
            let k = cipher::header_key(self.key, self.decrypt_nonce);
            Header {
                flag_len: cipher::skip32_decoded(k, codec::le32_at(s, 0)),
                stream_id: cipher::skip32_decoded(k, codec::le32_at(s, 4)),
            }
        }
    }

    /// The bytes that a body of this length takes up.
    pub open spec fn body_room(self, len: u32) -> int {
        if self.cipher is None {
            len as int
        } else {
            len + TAG_LEN + self.trailer_len()
        }
    }

    /// The body that the bytes after the header give, if the cipher opens them. A checksum that
    /// does not fit changes nothing.
    pub open spec fn body_in(self, s: Seq<u8>, len: u32) -> Option<Seq<u8>> {
        if self.cipher is None {
            Some(s.subrange(8, 8 + len))
        } else {
            self.opening(s.subrange(8, 8 + len + TAG_LEN))
        }
    }

    /// What the bytes start with.
    pub open spec fn take(self, s: Seq<u8>) -> Taken {
        if s.len() < EVENT_HEADER_LEN {
            Taken::Missing(EVENT_HEADER_LEN - s.len())
        } else {
            let h = self.header_in(s);
            let need = EVENT_HEADER_LEN + self.body_room(h.body_len());
            if bodiless(h) {
                Taken::Event(
                    EventView { flag_len: h.flag_len, stream_id: h.stream_id, body: Seq::empty() },
                    8,
                )
            } else if s.len() < need {
                Taken::Missing(need - s.len())
            } else {
                match self.body_in(s, h.body_len()) {
                    Some(body) => Taken::Event(
                        EventView { flag_len: h.flag_len, stream_id: h.stream_id, body },
                        need,
                    ),
                    None => Taken::Refused,
                }
            }
        }
    }

    /// The frame of the event holds all of it.
    pub open spec fn frames(self, ev: EventView) -> bool {
        &&& sendable(ev)
        &&& self.cipher is Some && ev.body.len() > 0 ==> match self.sealing(ev.body) {
            Some(data) => data.len() == ev.body.len() + TAG_LEN,
            None => false,
        }
    }

    /// The ciphers undo on these bytes what they did.
    pub open spec fn inverts(self, s: Seq<u8>) -> bool {
        self.cipher is Some && s.len() >= EVENT_HEADER_LEN ==> {
            let h = self.header_in(s);
            let k = cipher::header_key(self.key, self.decrypt_nonce);
            &&& forall|y: u32| #[trigger]
                cipher::skip32_encoded(k, y) == codec::le32_at(s, 0) ==> h.flag_len == y
            &&& forall|y: u32| #[trigger]
                cipher::skip32_encoded(k, y) == codec::le32_at(s, 4) ==> h.stream_id == y
            &&& !bodiless(h) && s.len() >= 8 + self.body_room(h.body_len()) ==> forall|
                plain: Seq<u8>,
            | #[trigger]
                cipher::aead_sealed(
                    self.cipher->Some_0,
                    self.body_key(),
                    cipher::nonce_bytes(self.decrypt_nonce),
                    plain,
                ) == Some(s.subrange(8, 8 + h.body_len() + TAG_LEN)) ==> self.body_in(
                    s,
                    h.body_len(),
                ) == Some(plain)
        }
    }
}

/// The event can be told from its frame: its header announces the body that it has, and a window
/// grant has none.
pub open spec fn sendable(ev: EventView) -> bool {
    if ev.body.len() == 0 {
        bodiless(ev.header())
    } else {
        ev.framed() && ev.header().flag() != FLAG_WIN_UPDATE
    }
}

/// What `c` encrypts next, `d` can decrypt next.
pub open spec fn matched(c: ContextView, d: ContextView) -> bool {
    &&& c.cipher == d.cipher
    &&& c.key == d.key
    &&& c.encrypt_nonce == d.decrypt_nonce
}

/// The bytes start with a frame that the context `c` made of the event.
pub open spec fn arrives(
    s: Seq<u8>,
    c: ContextView,
    before: Seq<u8>,
    ev: EventView,
    rest: Seq<u8>,
) -> bool {
    s == c.frame(before, ev) + rest
}

/// What `decrypt` gives for what taking an event comes to.
pub open spec fn reports(t: Taken, r: Result<Event, DecryptError>) -> bool {
    match t {
        Taken::Event(ev, _) => r is Ok && r->Ok_0@ == ev,
        Taken::Missing(n) => r is Err && r->Err_0.0 == n && r->Err_0.1@ == ""@,
        Taken::Refused => r is Err && r->Err_0.0 == 0 && r->Err_0.1@ == "Decrypt error"@,
    }
}

/// What is left of the bytes: an incomplete frame stays, and a body that does not open costs its
/// header.
pub open spec fn leaves(t: Taken, s: Seq<u8>) -> Seq<u8> {
    match t {
        Taken::Event(_, n) => s.skip(n),
        Taken::Missing(_) => s,
        Taken::Refused => s.skip(8),
    }
}

/// An event is encrypted: its frame goes behind the bytes `before`, which gives `after`, and the
/// frame of an event that can be told from it holds all of it.
pub open spec fn encrypts(
    pre: ContextView,
    post: ContextView,
    before: Seq<u8>,
    after: Seq<u8>,
    ev: EventView,
) -> bool {
    &&& post == (ContextView { encrypt_nonce: (pre.encrypt_nonce + 1) as u64, ..pre })
    &&& after == before + pre.frame(before, ev)
    &&& sendable(ev) && ev.body.len() <= u32::MAX ==> pre.frames(ev)
}

/// The bytes `s` are decrypted once, which leaves `left`: an event is taken off them, and what a
/// matching context encrypted comes out again.
pub open spec fn decrypts(
    pre: ContextView,
    post: ContextView,
    s: Seq<u8>,
    left: Seq<u8>,
    r: Result<Event, DecryptError>,
) -> bool {
    &&& reports(pre.take(s), r)
    &&& left == leaves(pre.take(s), s)
    &&& post == if r is Ok {
        ContextView { decrypt_nonce: (pre.decrypt_nonce + 1) as u64, ..pre }
    } else {
        pre
    }
    &&& forall|c: ContextView, before: Seq<u8>, ev: EventView, rest: Seq<u8>|
        (#[trigger] arrives(s, c, before, ev, rest) && matched(c, pre) && c.frames(ev)) ==> {
            &&& r is Ok
            &&& r->Ok_0@ == ev
            &&& left == rest
        }
}

/// Where the ciphers undo what they did, a frame gives back its event.
proof fn lemma_frame_is_taken(
    c: ContextView,
    d: ContextView,
    before: Seq<u8>,
    ev: EventView,
    rest: Seq<u8>,
    s: Seq<u8>,
)
    requires
        matched(c, d),
        c.frames(ev),
        arrives(s, c, before, ev, rest),
        d.inverts(s),
    ensures
        d.take(s) == Taken::Event(ev, c.frame(before, ev).len() as int),
        s.skip(c.frame(before, ev).len() as int) == rest,
{
    let f = c.frame(before, ev);
    assert(s.skip(f.len() as int) =~= rest);
    if c.cipher is None {
        assert(s.subrange(0, 4) =~= codec::le32(ev.flag_len));
        assert(s.subrange(4, 8) =~= codec::le32(ev.stream_id));
        codec::le32_reads_back(ev.flag_len, s, 0);
        codec::le32_reads_back(ev.stream_id, s, 4);
        if ev.body.len() > 0 {
            assert(s.subrange(8, (8 + ev.body.len()) as int) =~= ev.body);
        } else {
            assert(ev.body =~= Seq::empty());
        }
    } else {
        let k = cipher::header_key(c.key, c.encrypt_nonce);
        let e1 = cipher::skip32_encoded(k, ev.flag_len);
        let e2 = cipher::skip32_encoded(k, ev.stream_id);
        assert(s.subrange(0, 4) =~= codec::le32(e1));
        assert(s.subrange(4, 8) =~= codec::le32(e2));
        codec::le32_reads_back(e1, s, 0);
        codec::le32_reads_back(e2, s, 4);
        assert(d.header_in(s) == ev.header());
        if ev.body.len() > 0 {
            let data = c.sealing(ev.body)->Some_0;
            assert(s.subrange(8, 8 + ev.header().body_len() + TAG_LEN) =~= data);
        } else {
            assert(ev.body =~= Seq::empty());
        }
    }
}

impl Clone for CryptoContext {
    fn clone(&self) -> (r: CryptoContext)
        ensures
            r@ == self@,
    {
        CryptoContext {
            key: self.key.clone(),
            encrypt_nonce: self.encrypt_nonce,
            decrypt_nonce: self.decrypt_nonce,
            cipher: self.cipher,
        }
    }
}

impl CryptoContext {
    pub open spec fn wf(self) -> bool {
        self@.wf()
    }

    pub fn new(method: &str, k: &str, nonce: u64) -> (r: CryptoContext)
        requires
            crypto::cipher_of(method@) is Some,
        ensures
            r.wf(),
            r@ == (ContextView {
                cipher: crypto::cipher_of(method@)->Some_0,
                key: cipher::padded(vstd::utf8::encode_utf8(k@)),
                encrypt_nonce: nonce,
                decrypt_nonce: nonce,
            }),
    {
        let cipher = match parse_method(method) {
            Some(c) => c,
            None => None,
        };
        CryptoContext {
            key: padded_key(k),
            encrypt_nonce: nonce,
            decrypt_nonce: nonce,
            cipher,
        }
    }

    /// The key of the body cipher.
    fn body_key(&self, c: Cipher) -> (r: &[u8])
        requires
            self.wf(),
            self@.cipher == Some(c),
        ensures
            r@ == self@.body_key(),
            r@.len() == c.key_len(),
    {
        let len: usize = match c {
            Cipher::ChaCha20Poly1305 => 32,
            Cipher::Aes128Gcm => 16,
        };
        let r = vstd::slice::slice_subrange(self.key.as_slice(), 0, len);
        assert(r@ =~= self@.body_key());
        r
    }

    /// The header on the wire.
    fn sealed_head(&self, ev: &Event) -> (r: Vec<u8>)
        requires
            self.wf(),
            self@.cipher is Some,
        ensures
            r@ == self@.head(ev@),
            r@.len() == 8,
    {
        let sk = header_key_of(&self.key, self.encrypt_nonce);
        let mut head: Vec<u8> = u32_le(skip32_encode(&sk, ev.header.flag_len));
        let mut sid: Vec<u8> = u32_le(skip32_encode(&sk, ev.header.stream_id));
        head.append(&mut sid);
        head
    }

    /// What the body cipher makes of the body.
    fn sealed_body(&self, c: Cipher, ev: &Event) -> (r: Option<Vec<u8>>)
        requires
            self.wf(),
            self@.cipher == Some(c),
        ensures
            match r {
                Some(v) => self@.sealing(ev@.body) == Some(v@) && v@.len() == ev@.body.len()
                    + TAG_LEN,
                None => self@.sealing(ev@.body) is None,
            },
            ev@.body.len() <= u32::MAX ==> r is Some,
    {
        let nonce: Vec<u8> = nonce_of(self.encrypt_nonce);
        let body = vstd::slice::slice_to_vec(bytes_slice(&ev.body));
        match seal(c, self.body_key(c), nonce.as_slice(), body) {
            Ok(v) => Some(v),
            Err(_) => None,
        }
    }

    /// Appends the event's frame to `out`.
    pub fn encrypt(&mut self, ev: &Event, out: &mut BytesMut)
        requires
            old(self).wf(),
            old(self)@.encrypt_nonce < u64::MAX,
            buf::buf_of(*old(out)).len() + ev@.body.len() + 28 <= isize::MAX,
        ensures
            final(self).wf(),
            encrypts(
                old(self)@,
                final(self)@,
                buf::buf_of(*old(out)),
                buf::buf_of(*final(out)),
                ev@,
            ),
    {
        match self.cipher {
            None => none_encrypt_event(self, ev, out),
            Some(Cipher::ChaCha20Poly1305) => chacha20poly1305_encrypt_event(self, ev, out),
            Some(Cipher::Aes128Gcm) => aes128gcm_encrypt_event(self, ev, out),
        }
        self.encrypt_nonce = self.encrypt_nonce + 1;
    }

    /// Takes the event at the start of `buf` off it. Whatever a matching context encrypted comes
    /// out again, and takes up exactly its own bytes.
    pub fn decrypt(&mut self, buf: &mut BytesMut) -> (r: Result<Event, DecryptError>)
        requires
            old(self).wf(),
            old(self)@.decrypt_nonce < u64::MAX,
        ensures
            final(self).wf(),
            decrypts(
                old(self)@,
                final(self)@,
                buf::buf_of(*old(buf)),
                buf::buf_of(*final(buf)),
                r,
            ),
    {
        let ghost s = buf::buf_of(*buf);
        let ghost pre = self@;
        let r = match self.cipher {
            None => none_decrypt_event(self, buf),
            Some(Cipher::ChaCha20Poly1305) => chacha20poly1305_decrypt_event(self, buf),
            Some(Cipher::Aes128Gcm) => aes128gcm_decrypt_event(self, buf),
        };
        if r.is_ok() {
            self.decrypt_nonce = self.decrypt_nonce + 1;
        }
        proof {
            assert forall|c: ContextView, before: Seq<u8>, ev: EventView, rest: Seq<u8>|
                #[trigger] arrives(s, c, before, ev, rest) && matched(c, pre) && c.frames(
                    ev,
                ) implies r is Ok && r->Ok_0@ == ev && buf::buf_of(*buf) == rest by {
                lemma_frame_is_taken(c, pre, before, ev, rest, s);
            }
        }
        r
    }

    /// Starts both counters anew.
    pub fn reset(&mut self, nonce: u64)
        ensures
            final(self)@ == (ContextView {
                encrypt_nonce: nonce,
                decrypt_nonce: nonce,
                ..old(self)@
            }),
    {
        self.decrypt_nonce = nonce;
        self.encrypt_nonce = nonce;
    }
}

/// Appends the frame without encryption.
pub fn none_encrypt_event(ctx: &CryptoContext, ev: &Event, out: &mut BytesMut)
    requires
        ctx@.cipher is None,
        buf::buf_of(*old(out)).len() + ev@.body.len() + 8 <= isize::MAX,
    ensures
        buf::buf_of(*final(out)) == buf::buf_of(*old(out)) + ctx@.frame(
            buf::buf_of(*old(out)),
            ev@,
        ),
{
    let ghost before = buf::buf_of(*out);
    let head: Vec<u8> = encode_header(&ev.header);
    buf_extend(out, head.as_slice());
    buf_extend(out, bytes_slice(&ev.body));
    assert(buf::buf_of(*out) =~= before + ctx@.frame(before, ev@));
}

/// Takes a frame without encryption off the buffer.
pub fn none_decrypt_event(ctx: &CryptoContext, buf: &mut BytesMut) -> (r: Result<
    Event,
    DecryptError,
>)
    requires
        ctx@.cipher is None,
    ensures
        reports(ctx@.take(buf::buf_of(*old(buf))), r),
        buf::buf_of(*final(buf)) == leaves(
            ctx@.take(buf::buf_of(*old(buf))),
            buf::buf_of(*old(buf)),
        ),
        ctx@.inverts(buf::buf_of(*old(buf))),
{
    let have: usize = buf_len(buf);
    if have < EVENT_HEADER_LEN {
        return Err(((EVENT_HEADER_LEN - have) as u32, ""));
    }
    let header = Header {
        flag_len: read_u32_le(buf_slice(buf), 0),
        stream_id: read_u32_le(buf_slice(buf), 4),
    };
    if header.flags() == FLAG_WIN_UPDATE || header.len() == 0 {
        buf_advance(buf, EVENT_HEADER_LEN);
        return Ok(Event { header, body: bytes_new() });
    }
    let dlen: usize = header.len() as usize;
    if have - EVENT_HEADER_LEN < dlen {
        return Err(((dlen + EVENT_HEADER_LEN - have) as u32, ""));
    }
    let body = vstd::slice::slice_to_vec(
        vstd::slice::slice_subrange(buf_slice(buf), EVENT_HEADER_LEN, EVENT_HEADER_LEN + dlen),
    );
    buf_advance(buf, EVENT_HEADER_LEN + dlen);
    Ok(Event { header, body: bytes_from_vec(body) })
}

fn zero_bytes(n: usize) -> (r: Vec<u8>)
    ensures
        r@ == zeros(n as nat),
{
    let mut v: Vec<u8> = Vec::new();
    while v.len() < n
        invariant
            v@.len() <= n,
            v@ == zeros(v@.len()),
        decreases n - v@.len(),
    {
        v.push(0);
        assert(v@ =~= zeros(v@.len()));
    }
    v
}

/// Appends the frame, sealed with ChaCha20-Poly1305.
pub fn chacha20poly1305_encrypt_event(ctx: &CryptoContext, ev: &Event, out: &mut BytesMut)
    requires
        ctx.wf(),
        ctx@.cipher == Some(Cipher::ChaCha20Poly1305),
        buf::buf_of(*old(out)).len() + ev@.body.len() + 24 <= isize::MAX,
    ensures
        buf::buf_of(*final(out)) == buf::buf_of(*old(out)) + ctx@.frame(
            buf::buf_of(*old(out)),
            ev@,
        ),
        sendable(ev@) && ev@.body.len() <= u32::MAX ==> ctx@.frames(ev@),
{
    let ghost before = buf::buf_of(*out);
    let head: Vec<u8> = ctx.sealed_head(ev);
    buf_extend(out, head.as_slice());
    if bytes_len(&ev.body) > 0 {
        match ctx.sealed_body(Cipher::ChaCha20Poly1305, ev) {
            Some(data) => buf_extend(out, data.as_slice()),
            None => {
                buf_extend(out, bytes_slice(&ev.body));
                buf_extend(out, zero_bytes(TAG_LEN).as_slice());
            },
        }
    }
    assert(buf::buf_of(*out) =~= before + ctx@.frame(before, ev@));
}

/// Appends the frame, sealed with AES-128-GCM and followed by a checksum.
pub fn aes128gcm_encrypt_event(ctx: &CryptoContext, ev: &Event, out: &mut BytesMut)
    requires
        ctx.wf(),
        ctx@.cipher == Some(Cipher::Aes128Gcm),
        buf::buf_of(*old(out)).len() + ev@.body.len() + 28 <= isize::MAX,
    ensures
        buf::buf_of(*final(out)) == buf::buf_of(*old(out)) + ctx@.frame(
            buf::buf_of(*old(out)),
            ev@,
        ),
        sendable(ev@) && ev@.body.len() <= u32::MAX ==> ctx@.frames(ev@),
{
    let ghost before = buf::buf_of(*out);
    let head: Vec<u8> = ctx.sealed_head(ev);
    buf_extend(out, head.as_slice());
    let body_len: usize = bytes_len(&ev.body);
    if body_len > 0 {
        match ctx.sealed_body(Cipher::Aes128Gcm, ev) {
            Some(data) => {
                buf_extend(out, data.as_slice());
                assert(buf::buf_of(*out) =~= before + ctx@.head(ev@) + data@);
                let covered = vstd::slice::slice_subrange(
                    buf_slice(out),
                    EVENT_HEADER_LEN,
                    EVENT_HEADER_LEN + TAG_LEN + body_len,
                );
                let sum: Vec<u8> = u32_le(crc32_checksum(covered));
                buf_extend(out, sum.as_slice());
            },
            None => {
                buf_extend(out, bytes_slice(&ev.body));
                buf_extend(out, zero_bytes(TAG_LEN + CRC_LEN).as_slice());
            },
        }
    }
    assert(buf::buf_of(*out) =~= before + ctx@.frame(before, ev@));
}

/// Takes a frame with a sealed body off the buffer.
fn sealed_decrypt(ctx: &CryptoContext, c: Cipher, trailer: usize, buf: &mut BytesMut) -> (r: Result<
    Event,
    DecryptError,
>)
    requires
        ctx.wf(),
        ctx@.cipher == Some(c),
        trailer == ctx@.trailer_len(),
    ensures
        reports(ctx@.take(buf::buf_of(*old(buf))), r),
        buf::buf_of(*final(buf)) == leaves(
            ctx@.take(buf::buf_of(*old(buf))),
            buf::buf_of(*old(buf)),
        ),
        ctx@.inverts(buf::buf_of(*old(buf))),
{
    let ghost s = buf::buf_of(*buf);
    let have: usize = buf_len(buf);
    if have < EVENT_HEADER_LEN {
        return Err(((EVENT_HEADER_LEN - have) as u32, ""));
    }
    let sk = header_key_of(&ctx.key, ctx.decrypt_nonce);
    let header = Header {
        flag_len: skip32_decode(&sk, read_u32_le(buf_slice(buf), 0)),
        stream_id: skip32_decode(&sk, read_u32_le(buf_slice(buf), 4)),
    };
    assert(header == ctx@.header_in(s));
    if header.flags() == FLAG_WIN_UPDATE || header.len() == 0 {
        buf_advance(buf, EVENT_HEADER_LEN);
        return Ok(Event { header, body: bytes_new() });
    }
    let dlen: usize = header.len() as usize;
    let room: usize = dlen + TAG_LEN + trailer;
    if have - EVENT_HEADER_LEN < room {
        return Err(((room + EVENT_HEADER_LEN - have) as u32, ""));
    }
    let data = vstd::slice::slice_to_vec(
        vstd::slice::slice_subrange(
            buf_slice(buf),
            EVENT_HEADER_LEN,
            EVENT_HEADER_LEN + dlen + TAG_LEN,
        ),
    );
    buf_advance(buf, EVENT_HEADER_LEN);
    let nonce: Vec<u8> = nonce_of(ctx.decrypt_nonce);
    match open(c, ctx.body_key(c), nonce.as_slice(), data) {
        Ok(body) => {
            buf_advance(buf, room);
            assert(s.skip(8).skip(room as int) =~= s.skip(8 + room));
            Ok(Event { header, body: bytes_from_vec(body) })
        },
        Err(_) => Err((0, "Decrypt error")),
    }
}

/// Takes a frame sealed with ChaCha20-Poly1305 off the buffer.
pub fn chacha20poly1305_decrypt_event(ctx: &CryptoContext, buf: &mut BytesMut) -> (r: Result<
    Event,
    DecryptError,
>)
    requires
        ctx.wf(),
        ctx@.cipher == Some(Cipher::ChaCha20Poly1305),
    ensures
        reports(ctx@.take(buf::buf_of(*old(buf))), r),
        buf::buf_of(*final(buf)) == leaves(
            ctx@.take(buf::buf_of(*old(buf))),
            buf::buf_of(*old(buf)),
        ),
        ctx@.inverts(buf::buf_of(*old(buf))),
{
    sealed_decrypt(ctx, Cipher::ChaCha20Poly1305, 0, buf)
}

/// Takes a frame sealed with AES-128-GCM off the buffer, with its checksum.
pub fn aes128gcm_decrypt_event(ctx: &CryptoContext, buf: &mut BytesMut) -> (r: Result<
    Event,
    DecryptError,
>)
    requires
        ctx.wf(),
        ctx@.cipher == Some(Cipher::Aes128Gcm),
    ensures
        reports(ctx@.take(buf::buf_of(*old(buf))), r),
        buf::buf_of(*final(buf)) == leaves(
            ctx@.take(buf::buf_of(*old(buf))),
            buf::buf_of(*old(buf)),
        ),
        ctx@.inverts(buf::buf_of(*old(buf))),
{
    sealed_decrypt(ctx, Cipher::Aes128Gcm, CRC_LEN, buf)
}

/// What the bytes read so far say about the next read.
pub enum ReadPlan {
    Done(Event),
    /// Read exactly this many bytes more.
    Read(u32),
    /// Permission denied.
    Denied,
}

/// Looks at the header that has been read: a complete event, or the bytes to read for the rest.
pub fn plan_read(ctx: &mut CryptoContext, buf: &mut BytesMut) -> (r: ReadPlan)
    requires
        old(ctx).wf(),
        old(ctx)@.decrypt_nonce < u64::MAX,
    ensures
        final(ctx).wf(),
        match old(ctx)@.take(buf::buf_of(*old(buf))) {
            Taken::Event(ev, _) => r is Done && r->Done_0@ == ev,
            Taken::Missing(n) => r is Read && r->Read_0 == n,
            Taken::Refused => r is Denied,
        },
        buf::buf_of(*final(buf)) == leaves(
            old(ctx)@.take(buf::buf_of(*old(buf))),
            buf::buf_of(*old(buf)),
        ),
        final(ctx)@ == if r is Done {
            ContextView { decrypt_nonce: (old(ctx)@.decrypt_nonce + 1) as u64, ..old(ctx)@ }
        } else {
            old(ctx)@
        },
{
    match ctx.decrypt(buf) {
        Ok(ev) => ReadPlan::Done(ev),
        Err((n, reason)) => {
            proof {
                reveal_strlit("");
                reveal_strlit("Decrypt error");
            }
            if !reason.is_empty() {
                ReadPlan::Denied
            } else {
                ReadPlan::Read(n)
            }
        },
    }
}

/// A context decrypts what it encrypted, event by event: the two counters move together.
pub proof fn contexts_stay_matched(c: ContextView, d: ContextView)
    requires
        matched(c, d),
        c.encrypt_nonce < u64::MAX,
    ensures
        matched(
            ContextView { encrypt_nonce: (c.encrypt_nonce + 1) as u64, ..c },
            ContextView { decrypt_nonce: (d.decrypt_nonce + 1) as u64, ..d },
        ),
{
}

/// A fresh context, and one whose counters were reset, matches itself.
pub proof fn fresh_context_is_matched(c: ContextView)
    requires
        c.encrypt_nonce == c.decrypt_nonce,
    ensures
        matched(c, c),
{
}

/// The events are encrypted one after the other into one buffer, with the contexts and the
/// buffer's contents between them.
pub open spec fn is_encrypting(
    cs: Seq<ContextView>,
    outs: Seq<Seq<u8>>,
    evs: Seq<EventView>,
) -> bool {
    &&& cs.len() == evs.len() + 1
    &&& outs.len() == evs.len() + 1
    &&& forall|i: int|
        0 <= i < evs.len() ==> encrypts(cs[i], cs[i + 1], outs[i], outs[i + 1], #[trigger] evs[i])
}

/// The results come of one decryption after the other of one buffer, with the contexts and the
/// buffer's contents between them.
pub open spec fn is_decrypting(
    ds: Seq<ContextView>,
    bufs: Seq<Seq<u8>>,
    rs: Seq<Result<Event, DecryptError>>,
) -> bool {
    &&& ds.len() == rs.len() + 1
    &&& bufs.len() == rs.len() + 1
    &&& forall|i: int|
        0 <= i < rs.len() ==> decrypts(ds[i], ds[i + 1], bufs[i], bufs[i + 1], #[trigger] rs[i])
}

/// What is encrypted from the `i`-th event on.
spec fn frames_from(
    cs: Seq<ContextView>,
    outs: Seq<Seq<u8>>,
    evs: Seq<EventView>,
    i: int,
) -> Seq<u8>
    decreases evs.len() - i,
{
    if i >= evs.len() {
        Seq::empty()
    } else {
        cs[i].frame(outs[i], evs[i]) + frames_from(cs, outs, evs, i + 1)
    }
}

proof fn lemma_buffer_holds_frames(
    cs: Seq<ContextView>,
    outs: Seq<Seq<u8>>,
    evs: Seq<EventView>,
    i: int,
)
    requires
        is_encrypting(cs, outs, evs),
        0 <= i <= evs.len(),
    ensures
        outs.last() == outs[i] + frames_from(cs, outs, evs, i),
    decreases evs.len() - i,
{
    if i < evs.len() {
        let ev = evs[i];
        lemma_buffer_holds_frames(cs, outs, evs, i + 1);
        assert(outs.last() =~= outs[i] + (cs[i].frame(outs[i], ev) + frames_from(
            cs,
            outs,
            evs,
            i + 1,
        )));
    } else {
        assert(outs.last() =~= outs[i] + frames_from(cs, outs, evs, i));
    }
}

/// Events that were encrypted in order into one buffer come out of it in order, under a context
/// that matched the encrypting one at the start, and nothing is left of the buffer.
pub proof fn events_come_back_in_order(
    cs: Seq<ContextView>,
    outs: Seq<Seq<u8>>,
    evs: Seq<EventView>,
    ds: Seq<ContextView>,
    bufs: Seq<Seq<u8>>,
    rs: Seq<Result<Event, DecryptError>>,
)
    requires
        is_encrypting(cs, outs, evs),
        is_decrypting(ds, bufs, rs),
        rs.len() == evs.len(),
        forall|i: int| 0 <= i < evs.len() ==> sendable(#[trigger] evs[i]),
        matched(cs[0], ds[0]),
        cs[0].encrypt_nonce + evs.len() <= u64::MAX,
        outs[0] == Seq::<u8>::empty(),
        bufs[0] == outs.last(),
    ensures
        forall|i: int|
            0 <= i < evs.len() ==> (#[trigger] rs[i]) is Ok && rs[i]->Ok_0@ == evs[i],
        bufs.last() == Seq::<u8>::empty(),
        matched(cs.last(), ds.last()),
{
    lemma_buffer_holds_frames(cs, outs, evs, 0);
    assert(bufs[0] =~= frames_from(cs, outs, evs, 0));
    lemma_decrypting_follows(cs, outs, evs, ds, bufs, rs, evs.len() as int);
}

proof fn lemma_decrypting_follows(
    cs: Seq<ContextView>,
    outs: Seq<Seq<u8>>,
    evs: Seq<EventView>,
    ds: Seq<ContextView>,
    bufs: Seq<Seq<u8>>,
    rs: Seq<Result<Event, DecryptError>>,
    n: int,
)
    requires
        is_encrypting(cs, outs, evs),
        is_decrypting(ds, bufs, rs),
        rs.len() == evs.len(),
        forall|i: int| 0 <= i < evs.len() ==> sendable(#[trigger] evs[i]),
        matched(cs[0], ds[0]),
        cs[0].encrypt_nonce + evs.len() <= u64::MAX,
        bufs[0] == frames_from(cs, outs, evs, 0),
        0 <= n <= evs.len(),
    ensures
        bufs[n] == frames_from(cs, outs, evs, n),
        matched(cs[n], ds[n]),
        cs[n].encrypt_nonce == cs[0].encrypt_nonce + n,
        forall|i: int| 0 <= i < n ==> (#[trigger] rs[i]) is Ok && rs[i]->Ok_0@ == evs[i],
    decreases n,
{
    if n > 0 {
        let m = n - 1;
        lemma_decrypting_follows(cs, outs, evs, ds, bufs, rs, m);
        let ev = evs[m];
        let r = rs[m];
        assert(encrypts(cs[m], cs[n], outs[m], outs[n], ev));
        assert(decrypts(ds[m], ds[n], bufs[m], bufs[n], r));
        assert(arrives(bufs[m], cs[m], outs[m], ev, frames_from(cs, outs, evs, n)));
    }
}

/// Every event that is encrypted moves the counter on by one, so no counter serves two events.
pub proof fn every_event_has_its_own_counter(
    cs: Seq<ContextView>,
    outs: Seq<Seq<u8>>,
    evs: Seq<EventView>,
    i: int,
)
    requires
        is_encrypting(cs, outs, evs),
        cs[0].encrypt_nonce + evs.len() <= u64::MAX,
        0 <= i <= evs.len(),
    ensures
        cs[i].encrypt_nonce == cs[0].encrypt_nonce + i,
        cs[i].decrypt_nonce == cs[0].decrypt_nonce,
        cs[i].key == cs[0].key,
        cs[i].cipher == cs[0].cipher,
    decreases i,
{
    if i > 0 {
        every_event_has_its_own_counter(cs, outs, evs, i - 1);
        assert(encrypts(cs[i - 1], cs[i], outs[i - 1], outs[i - 1 + 1], evs[i - 1]));
    }
}

/// With a cipher, what is written of an event is its header under the key of the header, and its
/// body sealed under the key and the counter; with AES a checksum follows it.
pub proof fn body_is_sealed_under_key_and_counter(
    pre: ContextView,
    post: ContextView,
    before: Seq<u8>,
    after: Seq<u8>,
    ev: EventView,
    c: Cipher,
)
    requires
        encrypts(pre, post, before, after, ev),
        pre.wf(),
        pre.cipher == Some(c),
        sendable(ev),
        0 < ev.body.len() <= u32::MAX,
    ensures
        ({
            let n = before.len() as int;
            let key = if c is Aes128Gcm {
                pre.key.take(16)
            } else {
                pre.key.take(32)
            };
            let sealed = after.subrange(n + 8, n + 24 + ev.body.len());
            &&& after.len() == n + 24 + ev.body.len() + if c is Aes128Gcm {
                4int
            } else {
                0
            }
            &&& after.take(n) == before
            &&& codec::le32_at(after, n) == cipher::skip32_encoded(
                cipher::header_key(pre.key, pre.encrypt_nonce),
                ev.flag_len,
            )
            &&& codec::le32_at(after, n + 4) == cipher::skip32_encoded(
                cipher::header_key(pre.key, pre.encrypt_nonce),
                ev.stream_id,
            )
            &&& cipher::aead_sealed(
                c,
                key,
                codec::le64(pre.encrypt_nonce) + seq![0u8, 0, 0, 0],
                ev.body,
            ) == Some(sealed)
        }),
{
    let n = before.len() as int;
    let k = cipher::header_key(pre.key, pre.encrypt_nonce);
    let a = cipher::skip32_encoded(k, ev.flag_len);
    let b = cipher::skip32_encoded(k, ev.stream_id);
    let data = pre.sealing(ev.body)->Some_0;
    assert(pre.frames(ev));
    let tail = pre.tail(before, ev);
    assert(after =~= before + (codec::le32(a) + codec::le32(b)) + tail);
    assert(tail.take(data.len() as int) =~= data);
    assert(after.take(n) =~= before);
    assert(after.subrange(n, n + 4) =~= codec::le32(a));
    assert(after.subrange(n + 4, n + 8) =~= codec::le32(b));
    codec::le32_reads_back(a, after, n);
    codec::le32_reads_back(b, after, n + 4);
    assert(after.subrange(n + 8, n + 24 + ev.body.len()) =~= data);
}

/// Without a cipher, what is written of an event is its header, number for number, and its body.
pub proof fn plain_event_is_written_as_it_is(
    pre: ContextView,
    post: ContextView,
    before: Seq<u8>,
    after: Seq<u8>,
    ev: EventView,
)
    requires
        encrypts(pre, post, before, after, ev),
        pre.cipher is None,
    ensures
        ({
            let n = before.len() as int;
            &&& after.len() == n + 8 + ev.body.len()
            &&& after.take(n) == before
            &&& codec::le32_at(after, n) == ev.flag_len
            &&& codec::le32_at(after, n + 4) == ev.stream_id
            &&& after.skip(n + 8) == ev.body
        }),
{
    let n = before.len() as int;
    assert(after =~= before + (codec::le32(ev.flag_len) + codec::le32(ev.stream_id)) + ev.body);
    assert(after.take(n) =~= before);
    assert(after.subrange(n, n + 4) =~= codec::le32(ev.flag_len));
    assert(after.subrange(n + 4, n + 8) =~= codec::le32(ev.stream_id));
    codec::le32_reads_back(ev.flag_len, after, n);
    codec::le32_reads_back(ev.stream_id, after, n + 4);
    assert(after.skip(n + 8) =~= ev.body);
}

/// A decryption that gives no event counts nothing: what is missing is told and all bytes stay, and
/// a body that does not open costs its header only.
pub proof fn failed_decryption_counts_nothing(
    pre: ContextView,
    post: ContextView,
    s: Seq<u8>,
    left: Seq<u8>,
    r: Result<Event, DecryptError>,
)
    requires
        decrypts(pre, post, s, left, r),
        r is Err,
    ensures
        post == pre,
        r->Err_0.0 > 0 ==> left == s,
        r->Err_0.0 == 0 ==> left == s.skip(8) && s.len() >= 8,
        s.len() < 8 ==> r->Err_0.0 == 8 - s.len(),
{
}

/// With AES the body is followed by the checksum of its sealed bytes, where the event is the first
/// in its buffer.
pub proof fn sealed_body_has_its_checksum(
    pre: ContextView,
    post: ContextView,
    after: Seq<u8>,
    ev: EventView,
)
    requires
        encrypts(pre, post, Seq::empty(), after, ev),
        pre.wf(),
        pre.cipher == Some(Cipher::Aes128Gcm),
        sendable(ev),
        0 < ev.body.len() <= u32::MAX,
    ensures
        after.len() == 28 + ev.body.len(),
        codec::le32_at(after, 24 + ev.body.len() as int) == cipher::crc32_ieee(
            after.subrange(8, 24 + ev.body.len() as int),
        ),
{
    let n = ev.body.len() as int;
    let none = Seq::<u8>::empty();
    assert(pre.frames(ev));
    let data = pre.sealing(ev.body)->Some_0;
    let head = pre.head(ev);
    let all = none + head + data;
    let crc = cipher::crc32_ieee(all.subrange(8, 24 + n));
    assert(head.len() == 8);
    assert(after =~= head + (data + codec::le32(crc)));
    assert(after.subrange(8, 24 + n) =~= all.subrange(8, 24 + n));
    assert(after.subrange(24 + n, 28 + n) =~= codec::le32(crc));
    codec::le32_reads_back(crc, after, 24 + n);
}

} // verus!
