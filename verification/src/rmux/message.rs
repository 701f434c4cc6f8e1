//! The messages of the login.

use bincode::config;
use vstd::prelude::*;
use crate::mux::message;
use crate::codec;

pub use crate::mux::message::ConnectRequest;

verus! {

/// Names the cipher that the client wants.
#[derive(Debug)]
pub struct AuthRequest {
    pub method: String,
}

/// The answer to a login, with the cipher and the number that both sides count their nonces from.
#[derive(Debug)]
pub struct AuthResponse {
    pub success: bool,
    pub err: String,
    pub rand: u64,
    pub method: String,
}

/// What an answer says.
#[verifier::ext_equal]
pub struct ResponseView {
    pub success: bool,
    pub err: Seq<char>,
    pub rand: u64,
    pub method: Seq<char>,
}

impl View for AuthResponse {
    type V = ResponseView;

    open spec fn view(&self) -> ResponseView {
        ResponseView {
            success: self.success,
            err: self.err@,
            rand: self.rand,
            method: self.method@,
        }
    }
}

impl ResponseView {
    /// The answer as bytes.
    pub open spec fn bytes(self) -> Seq<u8> {
        seq![
            if self.success {
                1u8
            } else {
                0u8
            },
        ] + message::text_block(self.err) + codec::le64(self.rand) + message::text_block(self.method)
    }
}

/// The answer that the bytes start with.
pub open spec fn response_in(b: Seq<u8>) -> Option<ResponseView> {
    if b.len() == 0 || b[0] > 1 {
        None
    } else {
        match message::text_in(b.skip(1)) {
            Some((err, n)) => {
                let at = 1 + n;
                if b.len() < at + 8 {
                    None
                } else {
                    match message::text_in(b.skip(at + 8)) {
                        Some((method, _)) => Some(
                            ResponseView { success: b[0] == 1, err, rand: codec::le64_at(b, at), method },
                        ),
                        None => None,
                    }
                }
            },
            None => None,
        }
    }
}

/// `bincode::encode_to_vec` in the legacy configuration, on one text: it stands behind its
/// length.
#[verifier::external_body]
fn encode_text(a: &str) -> (r: Vec<u8>)
    ensures
        r@ == message::text_block(a@),
{
    bincode::encode_to_vec(a, config::legacy()).expect("a text is encoded into memory")
}

/// `bincode::borrow_decode_from_slice` in the legacy configuration, for one text: it takes the
/// text from the start of the bytes, and fails where it is not there.
#[verifier::external_body]
fn decode_text(data: &[u8]) -> (r: Option<String>)
    ensures
        match r {
            Some(s) => message::text_in(data@) is Some && message::text_in(data@)->Some_0.0 == s@,
            None => message::text_in(data@) is None,
        },
{
    let (s, _) = bincode::borrow_decode_from_slice::<&str, _>(data, config::legacy()).ok()?;
    Some(s.to_string())
}

/// `bincode::encode_to_vec` in the legacy configuration, on a truth value, a text, a number and
/// a text: one byte that is 0 or 1, each text behind its length, and the number in eight bytes,
/// the least significant first.
#[verifier::external_body]
fn encode_response(success: bool, err: &str, rand: u64, method: &str) -> (r: Vec<u8>)
    ensures
        r@ == (ResponseView { success, err: err@, rand, method: method@ }).bytes(),
{
    bincode::encode_to_vec((success, err, rand, method), config::legacy())
        .expect("the values are encoded into memory")
}

/// `bincode::borrow_decode_from_slice` in the legacy configuration, for a truth value, a text, a
/// number and a text: it takes them from the start of the bytes, and fails where they are not
/// there. What follows them is ignored.
#[verifier::external_body]
fn decode_response(data: &[u8]) -> (r: Option<AuthResponse>)
    ensures
        match r {
            Some(res) => response_in(data@) == Some(res@),
            None => response_in(data@) is None,
        },
{
    let ((success, err, rand, method), _) =
        bincode::borrow_decode_from_slice::<(bool, &str, u64, &str), _>(data, config::legacy())
            .ok()?;
    Some(AuthResponse { success, err: err.to_string(), rand, method: method.to_string() })
}

impl AuthRequest {
    /// The request as bytes.
    pub fn to_bytes(&self) -> (r: Vec<u8>)
        ensures
            r@ == message::text_block(self.method@),
    {
        encode_text(self.method.as_str())
    }

    /// The request that the bytes start with.
    pub fn from_bytes(data: &[u8]) -> (r: Option<AuthRequest>)
        ensures
            match r {
                Some(req) => message::text_in(data@) is Some && message::text_in(data@)->Some_0.0 == req.method@,
                None => message::text_in(data@) is None,
            },
    {
        match decode_text(data) {
            Some(method) => Some(AuthRequest { method }),
            None => None,
        }
    }
}

impl AuthResponse {
    /// The answer as bytes.
    pub fn to_bytes(&self) -> (r: Vec<u8>)
        ensures
            r@ == self@.bytes(),
    {
        encode_response(self.success, self.err.as_str(), self.rand, self.method.as_str())
    }

    /// The answer that the bytes start with.
    pub fn from_bytes(data: &[u8]) -> (r: Option<AuthResponse>)
        ensures
            match r {
                Some(res) => response_in(data@) == Some(res@),
                None => response_in(data@) is None,
            },
    {
        decode_response(data)
    }
}

proof fn lemma_parts(flag: u8, a: Seq<u8>, n: Seq<u8>, b: Seq<u8>, rest: Seq<u8>)
    requires
        n.len() == 8,
    ensures
        ({
            let all = seq![flag] + a + n + b + rest;
            let at = 1 + a.len() as int;
            &&& all.len() >= at + 8
            &&& all[0] == flag
            &&& all.skip(1) == a + (n + b + rest)
            &&& all.subrange(at, at + 8) == n
            &&& all.skip(at + 8) == b + rest
        }),
{
    let all = seq![flag] + a + n + b + rest;
    let at = 1 + a.len() as int;
    assert(all.skip(1) =~= a + (n + b + rest));
    assert(all.subrange(at, at + 8) =~= n);
    assert(all.skip(at + 8) =~= b + rest);
}

/// An answer that was written is read back, whatever follows it.
pub proof fn response_reads_back(r: ResponseView, rest: Seq<u8>)
    requires
        message::fits(r.err),
        message::fits(r.method),
    ensures
        response_in(r.bytes() + rest) == Some(r),
{
    let flag = if r.success {
        1u8
    } else {
        0u8
    };
    let err = message::text_block(r.err);
    let method = message::text_block(r.method);
    let rand = codec::le64(r.rand);
    lemma_parts(flag, err, rand, method, rest);
    message::text_reads_back(r.err, rand + method + rest);
    codec::le64_reads_back(r.rand, r.bytes() + rest, 1 + err.len() as int);
    message::text_reads_back(r.method, rest);
}

proof fn lemma_places(
    flag: u8,
    k: Seq<u8>,
    e: Seq<u8>,
    n: Seq<u8>,
    l: Seq<u8>,
    m: Seq<u8>,
)
    requires
        k.len() == 8,
        n.len() == 8,
        l.len() == 8,
    ensures
        ({
            let b = seq![flag] + (k + e) + n + (l + m);
            &&& b.len() == 25 + e.len() + m.len()
            &&& b[0] == flag
            &&& b.subrange(9, 9 + e.len() as int) == e
            &&& b[9 + e.len() as int] == n[0]
            &&& b.skip(25 + e.len() as int) == m
        }),
{
    let b = seq![flag] + (k + e) + n + (l + m);
    assert(b.subrange(9, 9 + e.len() as int) =~= e);
    assert(b.skip(25 + e.len() as int) =~= m);
}

/// An answer starts with one byte that says whether it is a success; the error follows as a text,
/// then the number in eight bytes, the least significant first, and the method as a text.
pub proof fn answer_starts_with_its_outcome(r: ResponseView)
    requires
        message::fits(r.err),
        message::fits(r.method),
    ensures
        ({
            let b = r.bytes();
            let e = vstd::utf8::encode_utf8(r.err);
            let m = vstd::utf8::encode_utf8(r.method);
            &&& b.len() == 25 + e.len() + m.len()
            &&& b[0] == (if r.success {
                1u8
            } else {
                0u8
            })
            &&& b.subrange(9, 9 + e.len() as int) == e
            &&& b[9 + e.len() as int] == r.rand % 256
            &&& b.skip(25 + e.len() as int) == m
        }),
{
    let flag = if r.success {
        1u8
    } else {
        0u8
    };
    let e = vstd::utf8::encode_utf8(r.err);
    let m = vstd::utf8::encode_utf8(r.method);
    lemma_places(
        flag,
        codec::le64(e.len() as u64),
        e,
        codec::le64(r.rand),
        codec::le64(m.len() as u64),
        m,
    );
    codec::least_significant_byte_comes_first(0, e.len() as u64, seq![0u8, 0, 0, 0]);
    codec::least_significant_byte_comes_first(0, r.rand, seq![0u8, 0, 0, 0]);
    codec::least_significant_byte_comes_first(0, m.len() as u64, seq![0u8, 0, 0, 0]);
}

} // verus!
