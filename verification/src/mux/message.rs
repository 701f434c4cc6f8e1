//! Messages that travel as the body of an event: texts and numbers one after the other, each text
//! behind its length.

use bincode::config;
use vstd::prelude::*;
use crate::codec;

verus! {

/// Asks the peer to connect to an address.
#[derive(Debug)]
pub struct ConnectRequest {
    pub proto: String,
    pub addr: String,
}

impl View for ConnectRequest {
    type V = (Seq<char>, Seq<char>);

    open spec fn view(&self) -> (Seq<char>, Seq<char>) {
        (self.proto@, self.addr@)
    }
}

impl Clone for ConnectRequest {
    fn clone(&self) -> (r: ConnectRequest)
        ensures
            r@ == self@,
    {
        ConnectRequest { proto: self.proto.clone(), addr: self.addr.clone() }
    }
}

/// A text behind the length of its bytes.
pub open spec fn text_block(s: Seq<char>) -> Seq<u8> {
    let b = vstd::utf8::encode_utf8(s);
    codec::le64(b.len() as u64) + b
}

/// The text at the start of the bytes, and how many bytes it takes up with its length; `None`
/// where the bytes end within it, or are not valid UTF-8.
pub open spec fn text_in(b: Seq<u8>) -> Option<(Seq<char>, int)> {
    if b.len() < 8 {
        None
    } else {
        let end = 8 + codec::le64_at(b, 0);
        if b.len() < end {
            None
        } else if vstd::utf8::valid_utf8(b.subrange(8, end)) {
            Some((vstd::utf8::decode_utf8(b.subrange(8, end)), end))
        } else {
            None
        }
    }
}

/// The two texts at the start of the bytes.
pub open spec fn texts_in(b: Seq<u8>) -> Option<(Seq<char>, Seq<char>)> {
    match text_in(b) {
        Some((first, n)) => match text_in(b.skip(n)) {
            Some((second, _)) => Some((first, second)),
            None => None,
        },
        None => None,
    }
}

/// `bincode::encode_to_vec` in the legacy configuration, on two texts: each stands behind its
/// length, which takes up eight bytes, the least significant first.
#[verifier::external_body]
fn encode_texts(a: &str, b: &str) -> (r: Vec<u8>)
    ensures
        r@ == text_block(a@) + text_block(b@),
{
    bincode::encode_to_vec((a, b), config::legacy()).expect("texts are encoded into memory")
}

/// `bincode::borrow_decode_from_slice` in the legacy configuration, for two texts: it takes them
/// from the start of the bytes, and fails where they are not there. What follows them is ignored.
#[verifier::external_body]
fn decode_texts(data: &[u8]) -> (r: Option<(String, String)>)
    ensures
        match r {
            Some((a, b)) => texts_in(data@) == Some((a@, b@)),
            None => texts_in(data@) is None,
        },
{
    let ((a, b), _) =
        bincode::borrow_decode_from_slice::<(&str, &str), _>(data, config::legacy()).ok()?;
    Some((a.to_string(), b.to_string()))
}

impl ConnectRequest {
    /// The request as bytes.
    pub fn to_bytes(&self) -> (r: Vec<u8>)
        ensures
            r@ == text_block(self.proto@) + text_block(self.addr@),
    {
        encode_texts(self.proto.as_str(), self.addr.as_str())
    }

    /// The request that the bytes start with.
    pub fn from_bytes(data: &[u8]) -> (r: Option<ConnectRequest>)
        ensures
            match r {
                Some(req) => texts_in(data@) == Some(req@),
                None => texts_in(data@) is None,
            },
    {
        match decode_texts(data) {
            Some((proto, addr)) => Some(ConnectRequest { proto, addr }),
            None => None,
        }
    }
}

/// The most bytes that a text may take up: as many as memory can hold.
pub open spec fn fits(s: Seq<char>) -> bool {
    vstd::utf8::encode_utf8(s).len() <= u64::MAX
}

/// A text that was written is read back, whatever follows it.
pub proof fn text_reads_back(s: Seq<char>, rest: Seq<u8>)
    requires
        fits(s),
    ensures
        text_in(text_block(s) + rest) == Some((s, text_block(s).len() as int)),
{
    let body = vstd::utf8::encode_utf8(s);
    let all = text_block(s) + rest;
    let n = body.len() as u64;
    assert(all.subrange(0, 8) =~= codec::le64(n));
    codec::le64_reads_back(n, all, 0);
    assert(all.subrange(8, 8 + n) =~= body);
    vstd::utf8::encode_utf8_valid_utf8(s);
    vstd::utf8::encode_utf8_decode_utf8(s);
}

/// A request that was written is read back, whatever follows it.
pub proof fn request_reads_back(proto: Seq<char>, addr: Seq<char>, rest: Seq<u8>)
    requires
        fits(proto),
        fits(addr),
    ensures
        texts_in(text_block(proto) + text_block(addr) + rest) == Some((proto, addr)),
{
    let all = text_block(proto) + text_block(addr) + rest;
    let tail = text_block(addr) + rest;
    assert(all =~= text_block(proto) + tail);
    text_reads_back(proto, tail);
    assert(all.skip(text_block(proto).len() as int) =~= tail);
    text_reads_back(addr, rest);
}

/// A text in a message is the number of its bytes, in eight bytes with the least significant first,
/// and the bytes.
pub proof fn text_follows_its_length(s: Seq<char>)
    requires
        fits(s),
    ensures
        ({
            let b = text_block(s);
            let u = vstd::utf8::encode_utf8(s);
            &&& b.len() == 8 + u.len()
            &&& b.skip(8) == u
            &&& u.len() < 256 ==> b.take(8) == seq![u.len() as u8, 0, 0, 0, 0, 0, 0, 0]
        }),
{
    let b = text_block(s);
    let u = vstd::utf8::encode_utf8(s);
    assert(b.skip(8) =~= u);
    if u.len() < 256 {
        assert(b.take(8) =~= seq![u.len() as u8, 0, 0, 0, 0, 0, 0, 0]);
    }
}

} // verus!
