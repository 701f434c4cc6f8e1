//! HTTP requests on their way through the proxy.

use bytes::{Bytes, BytesMut};
use httparse::Status;
use unicase::Ascii;
use vstd::prelude::*;
use crate::text;
use crate::buf;
use crate::buf::{
    buf_advance, buf_extend, buf_from_bytes, buf_len, buf_new, buf_slice, bytes_from_vec,
    bytes_slice,
};
use crate::text::{
    chars_of, contains_char, contains_text, find_text, from_utf8_lossy, parse_number, starts_with,
    text_between,
};

verus! {

/// The character in lower case, where it is an ASCII letter.
pub open spec fn lower(c: char) -> char {
    if 'A' <= c && c <= 'Z' {
        (c as u32 + 32) as char
    } else {
        c
    }
}

/// The texts are the same but for the case of ASCII letters.
pub open spec fn same_but_case(a: Seq<char>, b: Seq<char>) -> bool {
    a.len() == b.len() && forall|i: int| 0 <= i < a.len() ==> lower(#[trigger] a[i]) == lower(b[i])
}

/// `<Ascii as PartialEq>::eq` of `unicase`: the texts are the same but for the case of ASCII
/// letters.
#[verifier::external_body]
pub(crate) fn same_name(a: &str, b: &str) -> (r: bool)
    ensures
        r == same_but_case(a@, b@),
{
    Ascii::new(a) == Ascii::new(b)
}

/// A header's name and value.
pub type HeaderView = (Seq<char>, Seq<u8>);

#[derive(Debug)]
pub struct Header {
    /// The name; case does not matter in it.
    pub name: String,
    pub value: Bytes,
}

impl View for Header {
    type V = HeaderView;

    open spec fn view(&self) -> HeaderView {
        (self.name@, buf::bytes_of(self.value))
    }
}

impl Clone for Header {
    fn clone(&self) -> (r: Header)
        ensures
            r@ == self@,
    {
        Header { name: self.name.clone(), value: self.value.clone() }
    }
}

pub open spec fn header_views(v: Seq<Header>) -> Seq<HeaderView> {
    Seq::new(v.len(), |i: int| v[i]@)
}

/// The head of a request.
#[derive(Debug)]
pub struct HttpRequest {
    /// The request method, such as `GET`.
    pub method: Option<String>,
    /// The request path, such as `/about-us`.
    pub path: Option<String>,
    /// The minor version: 0 or 1.
    pub version: Option<u8>,
    pub headers: Vec<Header>,
}

/// What the head of a request says.
#[verifier::ext_equal]
pub struct RequestView {
    pub method: Option<Seq<char>>,
    pub path: Option<Seq<char>>,
    pub version: Option<u8>,
    pub headers: Seq<HeaderView>,
}

pub open spec fn opt_text(s: Option<String>) -> Option<Seq<char>> {
    match s {
        Some(t) => Some(t@),
        None => None,
    }
}

impl View for HttpRequest {
    type V = RequestView;

    open spec fn view(&self) -> RequestView {
        RequestView {
            method: opt_text(self.method),
            path: opt_text(self.path),
            version: self.version,
            headers: header_views(self.headers@),
        }
    }
}

impl Default for HttpRequest {
    fn default() -> (r: HttpRequest)
        ensures
            r@ == (RequestView {
                method: None,
                path: None,
                version: None,
                headers: Seq::empty(),
            }),
    {
        let r = HttpRequest { method: None, path: None, version: None, headers: Vec::new() };
        assert(r@.headers =~= Seq::empty());
        r
    }
}

/// The bytes of a text.
pub open spec fn utf8(s: Seq<char>) -> Seq<u8> {
    vstd::utf8::encode_utf8(s)
}

/// A text followed by a blank, or nothing.
pub open spec fn word(s: Option<Seq<char>>) -> Seq<u8> {
    match s {
        Some(t) => utf8(t) + utf8(" "@),
        None => Seq::empty(),
    }
}

/// The lines of the headers.
pub open spec fn header_lines(hs: Seq<HeaderView>) -> Seq<u8>
    decreases hs.len(),
{
    if hs.len() == 0 {
        Seq::empty()
    } else {
        header_lines(hs.drop_last()) + utf8(hs.last().0) + utf8(":"@) + hs.last().1 + utf8("\r\n"@)
    }
}

impl RequestView {
    /// The head of the request as it is sent.
    pub open spec fn rendered(self) -> Seq<u8> {
        word(self.method) + word(self.path) + match self.version {
            Some(v) => if v == 0 {
                utf8("HTTP/1.0"@)
            } else {
                utf8("HTTP/1.1"@)
            },
            None => Seq::empty(),
        } + utf8("\r\n"@) + header_lines(self.headers) + utf8("\r\n"@)
    }

    /// The value of the first header with this name.
    pub open spec fn find(self, name: Seq<char>, from: int) -> Option<Seq<u8>>
        decreases self.headers.len() - from,
    {
        if from < 0 || from >= self.headers.len() {
            None
        } else if same_but_case(self.headers[from].0, name) {
            Some(self.headers[from].1)
        } else {
            self.find(name, from + 1)
        }
    }
}

/// The headers without those of this name.
pub open spec fn without(hs: Seq<HeaderView>, name: Seq<char>) -> Seq<HeaderView>
    decreases hs.len(),
{
    if hs.len() == 0 {
        Seq::empty()
    } else if same_but_case(hs.last().0, name) {
        without(hs.drop_last(), name)
    } else {
        without(hs.drop_last(), name).push(hs.last())
    }
}

fn put_str(out: &mut Vec<u8>, s: &str)
    ensures
        final(out)@ == old(out)@ + utf8(s@),
{
    let ghost before = out@;
    out.extend_from_slice(s.as_bytes());
    assert(out@ =~= before + utf8(s@));
}

impl HttpRequest {
    /// Drops every header of this name.
    pub fn remove_header(&mut self, header: &str)
        ensures
            final(self)@ == (RequestView {
                headers: without(old(self)@.headers, header@),
                ..old(self)@
            }),
    {
        let ghost pre = self@;
        let mut kept: Vec<Header> = Vec::new();
        let mut i: usize = 0;
        assert(header_views(kept@) =~= without(pre.headers.take(0), header@));
        while i < self.headers.len()
            invariant
                i <= self.headers@.len(),
                self@ == pre,
                header_views(kept@) == without(pre.headers.take(i as int), header@),
            decreases self.headers@.len() - i,
        {
            let h = &self.headers[i];
            let ghost before = kept@;
            proof {
                assert(pre.headers.take(i + 1).drop_last() =~= pre.headers.take(i as int));
                assert(pre.headers.take(i + 1).last() == h@);
            }
            if !same_name(h.name.as_str(), header) {
                kept.push(h.clone());
                assert(header_views(kept@) =~= header_views(before).push(h@));
            }
            i += 1;
        }
        assert(pre.headers.take(i as int) =~= pre.headers);
        self.headers = kept;
    }

    /// The value of the first header of this name.
    pub fn get_header(&self, header: &str) -> (r: Option<String>)
        ensures
            match self@.find(header@, 0) {
                Some(v) => r is Some && r->Some_0@ == text::lossy_utf8(v),
                None => r is None,
            },
    {
        let mut i: usize = 0;
        while i < self.headers.len()
            invariant
                i <= self.headers@.len(),
                self@.find(header@, 0) == self@.find(header@, i as int),
            decreases self.headers@.len() - i,
        {
            let h = &self.headers[i];
            assert(self@.headers[i as int] == h@);
            if same_name(h.name.as_str(), header) {
                return Some(from_utf8_lossy(bytes_slice(&h.value)));
            }
            i += 1;
        }
        None
    }

    /// The head of the request as it is sent.
    pub fn to_bytes(&self) -> (r: Bytes)
        ensures
            buf::bytes_of(r) == self@.rendered(),
    {
        let mut out: Vec<u8> = Vec::new();
        if let Some(v) = &self.method {
            put_str(&mut out, v.as_str());
            put_str(&mut out, " ");
        }
        assert(out@ =~= word(self@.method));
        if let Some(v) = &self.path {
            put_str(&mut out, v.as_str());
            put_str(&mut out, " ");
        }
        assert(out@ =~= word(self@.method) + word(self@.path));
        let ghost words = out@;
        if let Some(v) = &self.version {
            if *v == 0 {
                put_str(&mut out, "HTTP/1.0");
            } else {
                put_str(&mut out, "HTTP/1.1");
            }
        }
        put_str(&mut out, "\r\n");
        let ghost line = out@;
        assert(line =~= words + match self@.version {
            Some(v) => if v == 0 {
                utf8("HTTP/1.0"@)
            } else {
                utf8("HTTP/1.1"@)
            },
            None => Seq::empty(),
        } + utf8("\r\n"@));
        let mut i: usize = 0;
        assert(line + header_lines(self@.headers.take(0)) =~= line);
        while i < self.headers.len()
            invariant
                i <= self.headers@.len(),
                out@ == line + header_lines(self@.headers.take(i as int)),
            decreases self.headers@.len() - i,
        {
            let h = &self.headers[i];
            let ghost before = self@.headers.take(i as int);
            put_str(&mut out, h.name.as_str());
            put_str(&mut out, ":");
            out.extend_from_slice(bytes_slice(&h.value));
            put_str(&mut out, "\r\n");
            proof {
                let now = self@.headers.take(i + 1);
                assert(now.drop_last() =~= before);
                assert(now.last() == h@);
                assert(out@ =~= line + header_lines(now));
            }
            i += 1;
        }
        assert(self@.headers.take(i as int) =~= self@.headers);
        put_str(&mut out, "\r\n");
        assert(out@ =~= self@.rendered());
        bytes_from_vec(out)
    }
}

/// The head of a request that was parsed, and the bytes that it took up.
pub struct ParsedRequest {
    pub consumed: usize,
    pub method: Option<String>,
    pub path: Option<String>,
    pub version: Option<u8>,
    pub headers: Vec<(String, Vec<u8>)>,
}

/// What parsing the head of a request gave.
pub enum RequestParse {
    Complete(ParsedRequest),
    /// The head does not end in these bytes.
    Partial,
    Failed,
}

/// What parsing the head of a request says.
pub enum ParseView {
    Complete(int, RequestView),
    Partial,
    Failed,
}

impl ParsedRequest {
    /// The request that was parsed.
    pub open spec fn request(self) -> RequestView {
        RequestView {
            method: opt_text(self.method),
            path: opt_text(self.path),
            version: self.version,
            headers: pair_views(self.headers@),
        }
    }
}

impl View for RequestParse {
    type V = ParseView;

    open spec fn view(&self) -> ParseView {
        match *self {
            RequestParse::Complete(p) => ParseView::Complete(p.consumed as int, p.request()),
            RequestParse::Partial => ParseView::Partial,
            RequestParse::Failed => ParseView::Failed,
        }
    }
}

/// How many headers a request or a response may have.
pub const MAX_HEADERS: usize = 32;

/// What `httparse::Request::parse`, with room for so many headers, makes of the bytes.
pub uninterp spec fn http_request(data: Seq<u8>, room: usize) -> ParseView;

/// `httparse::Request::parse` with room for so many headers: its outcome is a function of the
/// bytes and the room, and a complete head takes up some of the bytes and no more than there are.
#[verifier::external_body]
pub(crate) fn parse_http_request(data: &[u8], room: usize) -> (r: RequestParse)
    ensures
        r@ == http_request(data@, room),
        r matches RequestParse::Complete(p) ==> 0 < p.consumed <= data@.len(),
{
    let mut headers = vec![httparse::EMPTY_HEADER; room];
    let mut req = httparse::Request::new(&mut headers);
    match req.parse(data) {
        Ok(Status::Complete(consumed)) => RequestParse::Complete(ParsedRequest {
            consumed,
            method: req.method.map(String::from),
            path: req.path.map(String::from),
            version: req.version,
            headers: req.headers.iter().map(|h| (h.name.to_string(), h.value.to_vec())).collect(),
        }),
        Ok(Status::Partial) => RequestParse::Partial,
        Err(_) => RequestParse::Failed,
    }
}

/// The status code that `httparse::Response::parse`, with room for so many headers, reads off the
/// bytes; `None` where they hold no complete head of a response.
pub uninterp spec fn http_status(data: Seq<u8>, room: usize) -> Option<u16>;

/// `httparse::Response::parse` with room for so many headers: the status code is a function of the
/// bytes and the room.
#[verifier::external_body]
pub(crate) fn parse_http_status(data: &[u8], room: usize) -> (r: Option<u16>)
    ensures
        r == http_status(data@, room),
{
    let mut headers = vec![httparse::EMPTY_HEADER; room];
    let mut res = httparse::Response::new(&mut headers);
    match res.parse(data) {
        Ok(Status::Complete(_)) => res.code,
        Ok(Status::Partial) => None,
        Err(_) => None,
    }
}

/// The status code stands for success, or for information.
pub open spec fn is_ok_code(code: Option<u16>) -> bool {
    code is Some && code->Some_0 < 300
}

/// Whether a status code stands for success, or for information.
pub fn is_ok_status(code: Option<u16>) -> (r: bool)
    ensures
        r == is_ok_code(code),
{
    match code {
        Some(c) => c < 300,
        None => false,
    }
}

/// Whether the bytes are the head of a response that grants the request.
pub fn is_ok_response(buf: &[u8]) -> (r: bool)
    ensures
        r == is_ok_code(http_status(buf@, MAX_HEADERS)),
{
    is_ok_status(parse_http_status(buf, MAX_HEADERS))
}

/// What the headers of a request come to: those that are passed on, the length of the body, and
/// the host.
#[verifier::ext_equal]
pub struct HeaderScan {
    pub kept: Seq<HeaderView>,
    /// A negative length stands for a chunked body.
    pub body_length: i64,
    pub host: Seq<char>,
}

/// A host with its port, where port 80 is the default.
pub open spec fn with_port(host: Seq<char>) -> Seq<char> {
    if host.contains(':') {
        host
    } else {
        host + ":80"@
    }
}

/// The length, in sixty-four bits with a sign.
pub open spec fn wrapped(n: nat) -> i64 {
    if n <= i64::MAX {
        n as i64
    } else {
        (n - 0x1_0000_0000_0000_0000) as i64
    }
}

/// What a header adds to the scan. Headers for the proxy itself are not passed on.
pub open spec fn scan_header(st: HeaderScan, h: HeaderView) -> HeaderScan {
    let value = text::lossy_utf8(h.1);
    if same_but_case(h.0, "proxy-authorization"@) || same_but_case(h.0, "proxy-connection"@) {
        st
    } else {
        HeaderScan {
            kept: st.kept.push(h),
            body_length: if same_but_case(h.0, "transfer-encoding"@) {
                if text::first_at(value, "chunked"@, 0) is Some {
                    (-1) as i64
                } else {
                    st.body_length
                }
            } else if same_but_case(h.0, "content-length"@) {
                match text::number_of(value, u64::MAX as nat) {
                    Some(n) => wrapped(n),
                    None => st.body_length,
                }
            } else {
                st.body_length
            },
            host: if same_but_case(h.0, "host"@) && !same_but_case(h.0, "transfer-encoding"@)
                && !same_but_case(h.0, "content-length"@) {
                with_port(value)
            } else {
                st.host
            },
        }
    }
}

/// What a list of headers comes to, one after the other.
pub open spec fn scan_headers(st: HeaderScan, hs: Seq<HeaderView>) -> HeaderScan
    decreases hs.len(),
{
    if hs.len() == 0 {
        st
    } else {
        scan_header(scan_headers(st, hs.drop_last()), hs.last())
    }
}

/// The path of an absolute `http` address; any other path is kept.
pub open spec fn local_path(p: Seq<char>) -> Seq<char> {
    if text::occurs_at(p, "http://"@, 0) {
        match text::first_at(p.skip(7), "/"@, 0) {
            Some(n) => p.skip(7).skip(n),
            None => p,
        }
    } else {
        p
    }
}

fn local_path_of(p: &str) -> (r: String)
    ensures
        r@ == local_path(p@),
{
    proof {
        reveal_strlit("http://");
        reveal_strlit("/");
    }
    if starts_with(p, "http://") {
        let v = chars_of(p);
        let slash = chars_of("/");
        proof {
            lemma_first_at_shift(v@, slash@, 7, 7);
            text::lemma_first_at(v@, slash@, 7);
        }
        match find_text(&v, &slash, 7) {
            Some(n) => {
                let r = text_between(&v, n, v.len());
                assert(r@ =~= p@.skip(7).skip(n - 7));
                r
            },
            None => p.to_owned(),
        }
    } else {
        p.to_owned()
    }
}

proof fn lemma_first_at_shift(s: Seq<char>, pat: Seq<char>, k: int, i: int)
    requires
        0 <= k <= i,
        k <= s.len(),
    ensures
        text::first_at(s, pat, i) == match text::first_at(s.skip(k), pat, i - k) {
            Some(n) => Some(n + k),
            None => None::<int>,
        },
    decreases s.len() + 1 - i,
{
    let t = s.skip(k);
    if i + pat.len() > s.len() {
    } else {
        assert(s.subrange(i, i + pat.len()) =~= t.subrange(i - k, i - k + pat.len()));
        if s.subrange(i, i + pat.len()) != pat {
            if i < s.len() {
                lemma_first_at_shift(s, pat, k, i + 1);
            } else {
                assert(s.subrange(i, i + pat.len()) =~= pat);
            }
        }
    }
}

#[derive(Debug, PartialEq, Eq, Structural, Clone, Copy)]
enum HttpDecodeState {
    DecodingHeader,
    DecodingBody,
}

/// Rewrites the requests of a connection on their way to the remote side.
pub struct HttpProxyReader {
    state: HttpDecodeState,
    recv_buf: BytesMut,
    http_buf: BytesMut,
    body_length: i64,
    body_tail: Vec<u8>,
    remote_host: String,
}

/// The state of a reader.
#[verifier::ext_equal]
pub struct ReaderView {
    /// The head of the request is through, and its body follows.
    pub in_body: bool,
    /// What has been received and not yet handed on.
    pub received: Seq<u8>,
    /// What is left of the rewritten head.
    pub head: Seq<u8>,
    /// The bytes left of the body, or a negative number for a chunked one.
    pub body_length: i64,
    /// The last bytes of a chunked body.
    pub tail: Seq<u8>,
    pub host: Seq<char>,
}

impl View for HttpProxyReader {
    type V = ReaderView;

    closed spec fn view(&self) -> ReaderView {
        ReaderView {
            in_body: self.state == HttpDecodeState::DecodingBody,
            received: buf::buf_of(self.recv_buf),
            head: buf::buf_of(self.http_buf),
            body_length: self.body_length,
            tail: self.body_tail@,
            host: self.remote_host@,
        }
    }
}

impl ReaderView {
    /// No more has been received than a buffer can hold.
    pub open spec fn wf(self) -> bool {
        self.tail.len() <= 5 && self.received.len() <= isize::MAX
    }

    /// The reader waits for the head of a request.
    pub open spec fn awaiting(self) -> ReaderView {
        ReaderView { in_body: false, tail: Seq::empty(), body_length: 0, ..self }
    }

    /// The head that goes out for a parsed request.
    pub open spec fn rewritten(self, req: RequestView) -> RequestView {
        let scan = scan_headers(
            HeaderScan { kept: Seq::empty(), body_length: 0, host: self.host },
            req.headers,
        );
        RequestView {
            path: match req.path {
                Some(p) => Some(local_path(p)),
                None => None,
            },
            headers: scan.kept,
            ..req
        }
    }

    /// The state after what has been received was parsed.
    pub open spec fn parsed(self, p: ParseView) -> ReaderView {
        match p {
            ParseView::Complete(n, req) => {
                let scan = scan_headers(
                    HeaderScan { kept: Seq::empty(), body_length: 0, host: self.host },
                    req.headers,
                );
                let next = ReaderView {
                    in_body: true,
                    received: self.received.skip(n),
                    head: self.rewritten(req).rendered(),
                    body_length: scan.body_length,
                    tail: Seq::empty(),
                    host: scan.host,
                };
                if scan.body_length == 0 {
                    next.awaiting()
                } else {
                    next
                }
            },
            _ => ReaderView { body_length: 0, ..self },
        }
    }
}

/// The request cannot be parsed.
#[derive(Debug, PartialEq, Eq, Structural, Clone, Copy)]
pub struct BadRequest;

fn wrap_length(v: u64) -> (r: i64)
    ensures
        r == wrapped(v as nat),
{
    if v <= i64::MAX as u64 {
        v as i64
    } else {
        -((u64::MAX - v) as i64) - 1
    }
}

fn host_with_port(value: &[u8]) -> (r: String)
    ensures
        r@ == with_port(text::lossy_utf8(value@)),
{
    let mut host: String = from_utf8_lossy(value);
    if !contains_char(host.as_str(), ':') {
        host.push_str(":80");
    }
    host
}

pub open spec fn pair_views(v: Seq<(String, Vec<u8>)>) -> Seq<HeaderView> {
    Seq::new(v.len(), |i: int| (v[i].0@, v[i].1@))
}

/// How many of `len` bytes fit into `capacity`.
pub open spec fn fit(len: nat, capacity: usize) -> int {
    if len <= capacity {
        len as int
    } else {
        capacity as int
    }
}

/// The last five bytes, or all where there are fewer.
pub open spec fn last_five(s: Seq<u8>) -> Seq<u8> {
    if s.len() <= 5 {
        s
    } else {
        s.skip(s.len() - 5)
    }
}

/// The bytes with which a chunked body ends: an empty chunk.
pub open spec fn last_chunk() -> Seq<u8> {
    seq![0x30u8, 0x0d, 0x0a, 0x0d, 0x0a]
}

fn ends_chunks(tail: &Vec<u8>) -> (r: bool)
    ensures
        r == (tail@ == last_chunk()),
{
    let r = tail.len() == 5 && tail[0] == 0x30 && tail[1] == 0x0d && tail[2] == 0x0a && tail[3]
        == 0x0d && tail[4] == 0x0a;
    assert(r ==> tail@ =~= last_chunk());
    r
}

/// The state after a read of the body.
pub open spec fn body_read(s: ReaderView, capacity: usize) -> ReaderView {
    let n = fit(s.received.len(), capacity);
    let rest = s.received.skip(n);
    if !s.in_body {
        s
    } else if s.body_length < 0 {
        let tail = last_five(s.tail + s.received);
        if tail == last_chunk() {
            ReaderView { received: rest, ..s.awaiting() }
        } else {
            ReaderView { received: rest, tail, ..s }
        }
    } else if s.body_length > 0 {
        let left = (s.body_length - n) as i64;
        if left == 0 {
            ReaderView { received: rest, ..s.awaiting() }
        } else {
            ReaderView { received: rest, body_length: left, ..s }
        }
    } else {
        s.awaiting()
    }
}

/// What newly received bytes came to.
pub enum ReadStep {
    Data(Vec<u8>),
    /// Receive more.
    Again,
    Failed,
}

impl HttpProxyReader {
    pub fn new() -> (r: HttpProxyReader)
        ensures
            r@.wf(),
            r@ == (ReaderView {
                in_body: false,
                received: Seq::empty(),
                head: Seq::empty(),
                body_length: 0,
                tail: Seq::empty(),
                host: Seq::empty(),
            }),
    {
        HttpProxyReader {
            state: HttpDecodeState::DecodingHeader,
            recv_buf: buf_new(),
            http_buf: buf_new(),
            body_length: 0,
            body_tail: Vec::new(),
            remote_host: String::new(),
        }
    }

    /// The host of the last request, with its port.
    pub fn get_remote_addr(&self) -> (r: &str)
        ensures
            r@ == self@.host,
    {
        self.remote_host.as_str()
    }

    /// Takes in what was received.
    pub fn add_recv_content(&mut self, b: &[u8])
        requires
            old(self)@.wf(),
            old(self)@.received.len() + b@.len() <= isize::MAX,
        ensures
            final(self)@.wf(),
            final(self)@ == (ReaderView { received: old(self)@.received + b@, ..old(self)@ }),
    {
        buf_extend(&mut self.recv_buf, b);
    }

    fn switch_reading_header(&mut self)
        ensures
            final(self)@ == old(self)@.awaiting(),
    {
        self.state = HttpDecodeState::DecodingHeader;
        self.body_tail = Vec::new();
        self.body_length = 0;
        assert(self@ =~= old(self)@.awaiting());
    }

    /// Parses the head of the request that has been received, and gives its length; zero where
    /// it is not complete.
    pub fn parse_request(&mut self) -> (r: Result<usize, BadRequest>)
        requires
            old(self)@.wf(),
        ensures
            final(self)@.wf(),
            final(self)@ == old(self)@.parsed(http_request(old(self)@.received, MAX_HEADERS)),
            match http_request(old(self)@.received, MAX_HEADERS) {
                ParseView::Complete(n, _) => r is Ok && r->Ok_0 == n && 0 < n
                    <= old(self)@.received.len(),
                ParseView::Partial => r == Ok::<usize, BadRequest>(0),
                ParseView::Failed => r is Err,
            },
    {
        let p = parse_http_request(buf_slice(&self.recv_buf), MAX_HEADERS);
        self.apply_request(p)
    }

    /// Acts on the outcome of parsing what has been received.
    pub fn apply_request(&mut self, p: RequestParse) -> (r: Result<usize, BadRequest>)
        requires
            old(self)@.wf(),
            p matches RequestParse::Complete(q) ==> q.consumed <= old(self)@.received.len(),
        ensures
            final(self)@.wf(),
            final(self)@ == old(self)@.parsed(p@),
            match p@ {
                ParseView::Complete(n, _) => r is Ok && r->Ok_0 == n,
                ParseView::Partial => r == Ok::<usize, BadRequest>(0),
                ParseView::Failed => r is Err,
            },
    {
        let ghost pre = self@;
        let ghost view = p@;
        self.body_length = 0;
        let req = match p {
            RequestParse::Complete(q) => q,
            RequestParse::Partial => {
                return Ok(0);
            },
            RequestParse::Failed => {
                return Err(BadRequest);
            },
        };
        let ghost hs = pair_views(req.headers@);
        let ghost start = HeaderScan { kept: Seq::empty(), body_length: 0, host: pre.host };
        let mut hreq = HttpRequest::default();
        let mut i: usize = 0;
        while i < req.headers.len()
            invariant
                i <= req.headers@.len(),
                hs == pair_views(req.headers@),
                hreq@.method is None,
                hreq@.path is None,
                hreq@.version is None,
                scan_headers(start, hs.take(i as int)) == (HeaderScan {
                    kept: hreq@.headers,
                    body_length: self.body_length,
                    host: self.remote_host@,
                }),
                self@ == (ReaderView {
                    body_length: self.body_length,
                    host: self.remote_host@,
                    ..pre
                }),
            decreases req.headers@.len() - i,
        {
            let name: &str = req.headers[i].0.as_str();
            let value: &[u8] = req.headers[i].1.as_slice();
            let ghost h = hs[i as int];
            proof {
                assert(hs.take(i + 1).drop_last() =~= hs.take(i as int));
                assert(hs.take(i + 1).last() == h);
            }
            i += 1;
            if same_name(name, "proxy-authorization") || same_name(name, "proxy-connection") {
                continue;
            }
            if same_name(name, "transfer-encoding") {
                if contains_text(from_utf8_lossy(value).as_str(), "chunked") {
                    self.body_length = -1;
                }
            } else if same_name(name, "content-length") {
                if let Some(v) = parse_number(from_utf8_lossy(value).as_str(), u64::MAX) {
                    self.body_length = wrap_length(v);
                }
            } else if same_name(name, "host") {
                self.remote_host = host_with_port(value);
            }
            let ghost before = hreq.headers@;
            let header = Header {
                name: name.to_owned(),
                value: bytes_from_vec(vstd::slice::slice_to_vec(value)),
            };
            hreq.headers.push(header);
            proof {
                assert(header_views(hreq.headers@) =~= header_views(before).push(h));
            }
        }
        assert(hs.take(i as int) =~= hs);
        hreq.path = match &req.path {
            Some(v) => Some(local_path_of(v.as_str())),
            None => None,
        };
        hreq.method = req.method;
        hreq.version = req.version;
        assert(hreq@ =~= pre.rewritten(view->Complete_1));
        self.http_buf = buf_from_bytes(hreq.to_bytes());
        self.state = HttpDecodeState::DecodingBody;
        self.body_tail = Vec::new();
        buf_advance(&mut self.recv_buf, req.consumed);
        if self.body_length == 0 {
            self.switch_reading_header();
        }
        assert(self@ =~= pre.parsed(view));
        Ok(req.consumed)
    }

    /// The next bytes of the rewritten head, at most `capacity` of them.
    fn read_local_http(&mut self, capacity: usize) -> (r: Vec<u8>)
        ensures
            r@ == old(self)@.head.take(fit(old(self)@.head.len(), capacity)),
            final(self)@ == (ReaderView {
                head: old(self)@.head.skip(fit(old(self)@.head.len(), capacity)),
                ..old(self)@
            }),
    {
        let have: usize = buf_len(&self.http_buf);
        let n: usize = if have <= capacity {
            have
        } else {
            capacity
        };
        let r = vstd::slice::slice_to_vec(
            vstd::slice::slice_subrange(buf_slice(&self.http_buf), 0, n),
        );
        buf_advance(&mut self.http_buf, n);
        assert(r@ =~= old(self)@.head.take(n as int));
        r
    }

    /// The next received bytes, at most `capacity` of them.
    fn read_recv_buf(&mut self, capacity: usize) -> (r: Vec<u8>)
        ensures
            r@ == old(self)@.received.take(fit(old(self)@.received.len(), capacity)),
            final(self)@ == (ReaderView {
                received: old(self)@.received.skip(fit(old(self)@.received.len(), capacity)),
                ..old(self)@
            }),
    {
        let have: usize = buf_len(&self.recv_buf);
        let n: usize = if have <= capacity {
            have
        } else {
            capacity
        };
        let r = vstd::slice::slice_to_vec(
            vstd::slice::slice_subrange(buf_slice(&self.recv_buf), 0, n),
        );
        buf_advance(&mut self.recv_buf, n);
        assert(r@ =~= old(self)@.received.take(n as int));
        r
    }

    /// Takes the received bytes into the tail of a chunked body.
    fn extend_tail(&mut self)
        requires
            old(self)@.wf(),
        ensures
            final(self)@ == (ReaderView {
                tail: last_five(old(self)@.tail + old(self)@.received),
                ..old(self)@
            }),
    {
        let ghost pre = self@;
        let ghost all = pre.tail + pre.received;
        let have: usize = buf_len(&self.recv_buf);
        let received: &[u8] = buf_slice(&self.recv_buf);
        let mut tail: Vec<u8> = Vec::new();
        let old_len: usize = self.body_tail.len();
        let keep: usize = if have >= 5 {
            0
        } else if old_len + have <= 5 {
            old_len
        } else {
            5 - have
        };
        let from: usize = if have >= 5 {
            have - 5
        } else {
            0
        };
        let mut i: usize = old_len - keep;
        while i < old_len
            invariant
                old_len - keep <= i <= old_len,
                keep <= old_len,
                old_len == self.body_tail@.len(),
                tail@ == self.body_tail@.subrange(old_len - keep, i as int),
            decreases old_len - i,
        {
            tail.push(self.body_tail[i]);
            i += 1;
            assert(tail@ =~= self.body_tail@.subrange(old_len - keep, i as int));
        }
        tail.extend_from_slice(vstd::slice::slice_subrange(received, from, have));
        assert(tail@ =~= last_five(all));
        self.body_tail = tail;
    }

    /// The next bytes of the body, at most `capacity` of them.
    ///
    /// A chunked body ends with the bytes that end its last chunk. A body of a known length ends
    /// when as many bytes were read; reading goes by what has been received, and may run past it.
    pub fn read_body(&mut self, capacity: usize) -> (r: Vec<u8>)
        requires
            old(self)@.wf(),
        ensures
            final(self)@.wf(),
            final(self)@ == body_read(old(self)@, capacity),
            r@ == body_given(old(self)@, capacity),
    {
        let ghost pre = self@;
        if self.state == HttpDecodeState::DecodingHeader {
            return Vec::new();
        }
        if self.body_length < 0 {
            self.extend_tail();
            if ends_chunks(&self.body_tail) {
                self.switch_reading_header();
            }
            let r = self.read_recv_buf(capacity);
            assert(self@ =~= body_read(pre, capacity));
            r
        } else if self.body_length > 0 {
            let r = self.read_recv_buf(capacity);
            self.body_length = self.body_length - r.len() as i64;
            if self.body_length == 0 {
                self.switch_reading_header();
            }
            assert(self@ =~= body_read(pre, capacity));
            r
        } else {
            self.switch_reading_header();
            Vec::new()
        }
    }

    /// What can be read without receiving more: the rewritten head first, then the body.
    pub fn read_ready(&mut self, capacity: usize) -> (r: Vec<u8>)
        requires
            old(self)@.wf(),
        ensures
            final(self)@.wf(),
            reads_ready(old(self)@, final(self)@, capacity, r@),
    {
        let ghost pre = self@;
        let r = self.read_local_http(capacity);
        if r.len() > 0 {
            return r;
        }
        assert(self@ =~= pre);
        self.read_body(capacity)
    }

    /// Takes in newly received bytes, which are always looked at as the head of a request: reads
    /// its rewritten head, waits for more, or fails.
    pub fn read_received(&mut self, data: &[u8], capacity: usize) -> (r: ReadStep)
        requires
            old(self)@.wf(),
            old(self)@.received.len() + data@.len() <= isize::MAX,
        ensures
            final(self)@.wf(),
            takes_in(old(self)@, final(self)@, data@, capacity, r),
    {
        self.add_recv_content(data);
        let p = parse_http_request(buf_slice(&self.recv_buf), MAX_HEADERS);
        let complete: bool = matches!(p, RequestParse::Complete(_));
        match self.apply_request(p) {
            Ok(_) => {
                if complete {
                    ReadStep::Data(self.read_local_http(capacity))
                } else {
                    ReadStep::Again
                }
            },
            Err(_) => ReadStep::Failed,
        }
    }
}

/// The header is meant for the proxy itself.
pub open spec fn for_the_proxy(h: HeaderView) -> bool {
    same_but_case(h.0, "proxy-authorization"@) || same_but_case(h.0, "proxy-connection"@)
}

/// The headers that are not meant for the proxy itself, in order.
pub open spec fn for_the_remote(hs: Seq<HeaderView>) -> Seq<HeaderView>
    decreases hs.len(),
{
    if hs.len() == 0 {
        Seq::empty()
    } else if for_the_proxy(hs.last()) {
        for_the_remote(hs.drop_last())
    } else {
        for_the_remote(hs.drop_last()).push(hs.last())
    }
}

proof fn lemma_scan_keeps(st: HeaderScan, hs: Seq<HeaderView>)
    requires
        st.kept.len() == 0,
    ensures
        scan_headers(st, hs).kept == for_the_remote(hs),
        forall|i: int|
            0 <= i < for_the_remote(hs).len() ==> !for_the_proxy(#[trigger] for_the_remote(hs)[i]),
    decreases hs.len(),
{
    if hs.len() > 0 {
        lemma_scan_keeps(st, hs.drop_last());
    } else {
        assert(st.kept =~= Seq::empty());
    }
}

/// A request reaches the remote side with every header but those for the proxy itself, in order,
/// and none of the latter reaches it.
pub proof fn proxy_headers_stay_here(s: ReaderView, req: RequestView)
    ensures
        s.rewritten(req).headers == for_the_remote(req.headers),
        forall|i: int|
            0 <= i < s.rewritten(req).headers.len() ==> !for_the_proxy(
                #[trigger] s.rewritten(req).headers[i],
            ),
{
    lemma_scan_keeps(
        HeaderScan { kept: Seq::empty(), body_length: 0, host: s.host },
        req.headers,
    );
}

proof fn lemma_without_has_none(hs: Seq<HeaderView>, name: Seq<char>)
    ensures
        forall|i: int|
            0 <= i < without(hs, name).len() ==> !same_but_case(
                (#[trigger] without(hs, name)[i]).0,
                name,
            ),
    decreases hs.len(),
{
    if hs.len() > 0 {
        let w = without(hs.drop_last(), name);
        lemma_without_has_none(hs.drop_last(), name);
        assert forall|i: int| 0 <= i < without(hs, name).len() implies !same_but_case(
            (#[trigger] without(hs, name)[i]).0,
            name,
        ) by {
            if i < w.len() {
                assert(without(hs, name)[i] == w[i]);
            }
        }
    }
}

proof fn lemma_not_found(r: RequestView, name: Seq<char>, from: int)
    requires
        0 <= from,
        forall|i: int|
            0 <= i < r.headers.len() ==> !same_but_case((#[trigger] r.headers[i]).0, name),
    ensures
        r.find(name, from) is None,
    decreases r.headers.len() - from,
{
    if from < r.headers.len() {
        lemma_not_found(r, name, from + 1);
    }
}

/// A header that was removed is not found any more.
pub proof fn removed_header_is_gone(r: RequestView, name: Seq<char>)
    ensures
        (RequestView { headers: without(r.headers, name), ..r }).find(name, 0) is None,
{
    lemma_without_has_none(r.headers, name);
    lemma_not_found(RequestView { headers: without(r.headers, name), ..r }, name, 0);
}

/// The first header with a name, in whatever case, is the one that is found.
pub proof fn first_header_is_found(r: RequestView, name: Seq<char>, i: int, from: int)
    requires
        0 <= from <= i < r.headers.len(),
        same_but_case(r.headers[i].0, name),
        forall|j: int| from <= j < i ==> !same_but_case((#[trigger] r.headers[j]).0, name),
    ensures
        r.find(name, from) == Some(r.headers[i].1),
    decreases i - from,
{
    if from < i {
        assert(!same_but_case(r.headers[from].0, name));
        first_header_is_found(r, name, i, from + 1);
    }
}

/// A header that a request does not have is not found.
pub proof fn missing_header_is_not_found(r: RequestView, name: Seq<char>, from: int)
    requires
        0 <= from,
        forall|j: int|
            from <= j < r.headers.len() ==> !same_but_case((#[trigger] r.headers[j]).0, name),
    ensures
        r.find(name, from) is None,
    decreases r.headers.len() - from,
{
    if from < r.headers.len() {
        missing_header_is_not_found(r, name, from + 1);
    }
}

proof fn lemma_ascii_bytes(s: Seq<char>, b: Seq<u8>)
    requires
        s.len() == b.len(),
        forall|i: int| 0 <= i < s.len() ==> '\0' <= (#[trigger] s[i]) <= '\u{7f}' && s[i] as u8 == b[i],
    ensures
        utf8(s) == b,
{
    vstd::utf8::is_ascii_chars_encode_utf8(s);
    assert forall|i: int| 0 <= i < b.len() implies utf8(s)[i] == b[i] by {
        assert(s[i] as u8 == b[i]);
    }
    assert(utf8(s) =~= b);
}

proof fn lemma_separators()
    ensures
        utf8(" "@) == seq![0x20u8],
        utf8(":"@) == seq![0x3au8],
        utf8("\r\n"@) == seq![0x0du8, 0x0a],
{
    reveal_strlit(" ");
    reveal_strlit(":");
    reveal_strlit("\r\n");
    lemma_ascii_bytes(" "@, seq![0x20u8]);
    lemma_ascii_bytes(":"@, seq![0x3au8]);
    lemma_ascii_bytes("\r\n"@, seq![0x0du8, 0x0a]);
}

/// Every header stands between those before it and those after it, on a line of its own: its name,
/// a colon, its value as it is, and the end of the line.
pub proof fn header_has_its_line(before: Seq<HeaderView>, h: HeaderView, after: Seq<HeaderView>)
    ensures
        header_lines(before + seq![h] + after) == header_lines(before) + utf8(h.0) + seq![0x3au8]
            + h.1 + seq![0x0du8, 0x0a] + header_lines(after),
    decreases after.len(),
{
    let all = before + seq![h] + after;
    lemma_separators();
    if after.len() == 0 {
        assert(all.drop_last() =~= before);
        assert(all.last() == h);
    } else {
        assert(all.drop_last() =~= before + seq![h] + after.drop_last());
        assert(all.last() == after.last());
        header_has_its_line(before, h, after.drop_last());
    }
    assert(header_lines(all) =~= header_lines(before) + utf8(h.0) + seq![0x3au8] + h.1 + seq![
        0x0du8,
        0x0a,
    ] + header_lines(after));
}

/// A request starts with a line of three words, the method, the path and the version, and ends
/// with an empty line.
pub proof fn request_starts_with_its_line(r: RequestView, method: Seq<char>, path: Seq<char>, v: u8)
    requires
        r.method == Some(method),
        r.path == Some(path),
        r.version == Some(v),
        v <= 1,
    ensures
        r.rendered() == utf8(method) + seq![0x20u8] + utf8(path) + seq![0x20u8] + seq![
            0x48u8,
            0x54,
            0x54,
            0x50,
            0x2f,
            0x31,
            0x2e,
            (0x30 + v) as u8,
            0x0d,
            0x0a,
        ] + header_lines(r.headers) + seq![0x0du8, 0x0a],
{
    lemma_separators();
    reveal_strlit("HTTP/1.0");
    reveal_strlit("HTTP/1.1");
    lemma_ascii_bytes("HTTP/1.0"@, seq![0x48u8, 0x54, 0x54, 0x50, 0x2f, 0x31, 0x2e, 0x30]);
    lemma_ascii_bytes("HTTP/1.1"@, seq![0x48u8, 0x54, 0x54, 0x50, 0x2f, 0x31, 0x2e, 0x31]);
    assert(r.rendered() =~= utf8(method) + seq![0x20u8] + utf8(path) + seq![0x20u8] + seq![
        0x48u8,
        0x54,
        0x54,
        0x50,
        0x2f,
        0x31,
        0x2e,
        (0x30 + v) as u8,
        0x0d,
        0x0a,
    ] + header_lines(r.headers) + seq![0x0du8, 0x0a]);
}

/// A path that is an absolute address loses the scheme and the host, and nothing more.
pub proof fn absolute_path_is_made_local(host: Seq<char>, path: Seq<char>)
    requires
        !host.contains('/'),
        path.len() > 0,
        path[0] == '/',
    ensures
        local_path(seq!['h', 't', 't', 'p', ':', '/', '/'] + host + path) == path,
{
    let scheme = seq!['h', 't', 't', 'p', ':', '/', '/'];
    let p = scheme + host + path;
    reveal_strlit("http://");
    reveal_strlit("/");
    assert("http://"@ =~= scheme);
    assert("/"@ =~= seq!['/']);
    assert(p.subrange(0, 7) =~= scheme);
    let rest = p.skip(7);
    assert(rest =~= host + path);
    text::lemma_first_at(rest, "/"@, 0);
    assert(rest.subrange(host.len() as int, host.len() as int + 1) =~= "/"@);
    assert(text::occurs_at(rest, "/"@, host.len() as int));
    match text::first_at(rest, "/"@, 0) {
        Some(k) => {
            if k < host.len() {
                assert(rest.subrange(k, k + 1)[0] == host[k]);
                assert(host.contains(host[k]));
                assert(false);
            }
            if k > host.len() {
                assert(false);
            }
            assert(rest.skip(k) =~= path);
        },
        None => {
            assert(false);
        },
    }
}

/// A path that is no absolute `http` address is passed on as it is.
pub proof fn other_path_is_kept(p: Seq<char>)
    requires
        p.len() < 7 || p.take(7) != seq!['h', 't', 't', 'p', ':', '/', '/'],
    ensures
        local_path(p) == p,
{
    reveal_strlit("http://");
    assert("http://"@ =~= seq!['h', 't', 't', 'p', ':', '/', '/']);
    if p.len() >= 7 {
        assert(p.subrange(0, 7) =~= p.take(7));
    }
}

/// The header says how long the body is, or that it comes in chunks.
pub open spec fn tells_length(h: HeaderView) -> bool {
    ||| same_but_case(h.0, seq!['c', 'o', 'n', 't', 'e', 'n', 't', '-', 'l', 'e', 'n', 'g', 't', 'h'])
    ||| same_but_case(
        h.0,
        seq!['t', 'r', 'a', 'n', 's', 'f', 'e', 'r', '-', 'e', 'n', 'c', 'o', 'd', 'i', 'n', 'g'],
    )
}

proof fn lemma_header_names()
    ensures
        "content-length"@ == seq![
            'c',
            'o',
            'n',
            't',
            'e',
            'n',
            't',
            '-',
            'l',
            'e',
            'n',
            'g',
            't',
            'h',
        ],
        "transfer-encoding"@ == seq![
            't',
            'r',
            'a',
            'n',
            's',
            'f',
            'e',
            'r',
            '-',
            'e',
            'n',
            'c',
            'o',
            'd',
            'i',
            'n',
            'g',
        ],
        "host"@ == seq!['h', 'o', 's', 't'],
        "proxy-authorization"@.len() == 19,
        "proxy-connection"@.len() == 16,
{
    reveal_strlit("content-length");
    reveal_strlit("transfer-encoding");
    reveal_strlit("host");
    reveal_strlit("proxy-authorization");
    reveal_strlit("proxy-connection");
    assert("content-length"@ =~= seq![
        'c',
        'o',
        'n',
        't',
        'e',
        'n',
        't',
        '-',
        'l',
        'e',
        'n',
        'g',
        't',
        'h',
    ]);
    assert("transfer-encoding"@ =~= seq![
        't',
        'r',
        'a',
        'n',
        's',
        'f',
        'e',
        'r',
        '-',
        'e',
        'n',
        'c',
        'o',
        'd',
        'i',
        'n',
        'g',
    ]);
    assert("host"@ =~= seq!['h', 'o', 's', 't']);
}

proof fn lemma_length_stays(st: HeaderScan, hs: Seq<HeaderView>, i: int)
    requires
        0 <= i <= hs.len(),
        forall|j: int| i <= j < hs.len() ==> !tells_length(#[trigger] hs[j]),
    ensures
        scan_headers(st, hs).body_length == scan_headers(st, hs.take(i)).body_length,
    decreases hs.len() - i,
{
    if i == hs.len() {
        assert(hs.take(i) =~= hs);
    } else {
        lemma_header_names();
        let less = hs.drop_last();
        assert(!tells_length(hs[hs.len() - 1]));
        assert forall|j: int| i <= j < less.len() implies !tells_length(#[trigger] less[j]) by {
            assert(!tells_length(hs[j]));
        }
        lemma_length_stays(st, less, i);
        assert(less.take(i) =~= hs.take(i));
    }
}

proof fn lemma_host_stays(st: HeaderScan, hs: Seq<HeaderView>, i: int)
    requires
        0 <= i <= hs.len(),
        forall|j: int|
            i <= j < hs.len() ==> !same_but_case((#[trigger] hs[j]).0, seq!['h', 'o', 's', 't']),
    ensures
        scan_headers(st, hs).host == scan_headers(st, hs.take(i)).host,
    decreases hs.len() - i,
{
    if i == hs.len() {
        assert(hs.take(i) =~= hs);
    } else {
        lemma_header_names();
        let less = hs.drop_last();
        assert(!same_but_case(hs[hs.len() - 1].0, seq!['h', 'o', 's', 't']));
        assert forall|j: int| i <= j < less.len() implies !same_but_case(
            (#[trigger] less[j]).0,
            seq!['h', 'o', 's', 't'],
        ) by {
            assert(!same_but_case(hs[j].0, seq!['h', 'o', 's', 't']));
        }
        lemma_host_stays(st, less, i);
        assert(less.take(i) =~= hs.take(i));
    }
}

/// A request whose last word on its body is a length is followed by a body of that many bytes: it
/// starts behind the head, and a length of zero means that the next request follows.
pub proof fn body_has_the_length_told(s: ReaderView, at: int, req: RequestView, i: int, n: nat)
    requires
        0 <= at <= s.received.len(),
        0 <= i < req.headers.len(),
        same_but_case(
            req.headers[i].0,
            seq!['c', 'o', 'n', 't', 'e', 'n', 't', '-', 'l', 'e', 'n', 'g', 't', 'h'],
        ),
        text::lossy_utf8(req.headers[i].1) == text::digits(n),
        n <= i64::MAX,
        forall|j: int| i < j < req.headers.len() ==> !tells_length(#[trigger] req.headers[j]),
    ensures
        ({
            let next = s.parsed(ParseView::Complete(at, req));
            &&& next.body_length == n
            &&& next.in_body == (n > 0)
            &&& next.received == s.received.skip(at)
            &&& next.tail.len() == 0
        }),
{
    let st = HeaderScan { kept: Seq::empty(), body_length: 0, host: s.host };
    let hs = req.headers;
    lemma_header_names();
    lemma_length_stays(st, hs, i + 1);
    assert(hs.take(i + 1).last() == hs[i]);
    text::decimal_reads_back(n);
    assert(text::digit_value(text::digits(n)[0]) is Some);
    assert(text::number_of(text::digits(n), u64::MAX as nat) == Some(n));
    assert(hs[i].0.len() == 14);
    assert(!same_but_case(hs[i].0, "transfer-encoding"@));
}

/// A request whose last word on its body is that it comes in chunks is followed by one, which has
/// no length of its own.
pub proof fn body_comes_in_chunks(
    s: ReaderView,
    at: int,
    req: RequestView,
    i: int,
    a: Seq<char>,
    b: Seq<char>,
)
    requires
        0 <= at <= s.received.len(),
        0 <= i < req.headers.len(),
        same_but_case(
            req.headers[i].0,
            seq!['t', 'r', 'a', 'n', 's', 'f', 'e', 'r', '-', 'e', 'n', 'c', 'o', 'd', 'i', 'n', 'g'],
        ),
        text::lossy_utf8(req.headers[i].1) == a + seq!['c', 'h', 'u', 'n', 'k', 'e', 'd'] + b,
        forall|j: int| i < j < req.headers.len() ==> !tells_length(#[trigger] req.headers[j]),
    ensures
        ({
            let next = s.parsed(ParseView::Complete(at, req));
            &&& next.in_body
            &&& next.body_length < 0
            &&& next.received == s.received.skip(at)
            &&& next.tail.len() == 0
        }),
{
    let st = HeaderScan { kept: Seq::empty(), body_length: 0, host: s.host };
    let hs = req.headers;
    let value = text::lossy_utf8(hs[i].1);
    lemma_header_names();
    lemma_length_stays(st, hs, i + 1);
    assert(hs.take(i + 1).last() == hs[i]);
    reveal_strlit("chunked");
    let word = seq!['c', 'h', 'u', 'n', 'k', 'e', 'd'];
    assert("chunked"@ =~= word);
    text::lemma_first_at(value, "chunked"@, 0);
    assert(value.subrange(a.len() as int, a.len() as int + 7) =~= word);
    assert(text::occurs_at(value, "chunked"@, a.len() as int));
    assert(hs[i].0.len() == 17);
}

/// A request that says nothing of a body has none: the next request follows its head.
pub proof fn request_without_a_length_has_no_body(s: ReaderView, at: int, req: RequestView)
    requires
        0 <= at <= s.received.len(),
        forall|j: int| 0 <= j < req.headers.len() ==> !tells_length(#[trigger] req.headers[j]),
    ensures
        ({
            let next = s.parsed(ParseView::Complete(at, req));
            &&& !next.in_body
            &&& next.body_length == 0
            &&& next.received == s.received.skip(at)
        }),
{
    let st = HeaderScan { kept: Seq::empty(), body_length: 0, host: s.host };
    lemma_length_stays(st, req.headers, 0);
    assert(req.headers.take(0) =~= Seq::empty());
}

/// The last host that a request names is where it goes, to the port that it names or to port 80.
/// Without one, the host of the request before it stays.
pub proof fn request_goes_to_its_host(s: ReaderView, at: int, req: RequestView, i: int)
    requires
        -1 <= i < req.headers.len(),
        i >= 0 ==> same_but_case(req.headers[i].0, seq!['h', 'o', 's', 't']),
        forall|j: int|
            i < j < req.headers.len() ==> !same_but_case(
                (#[trigger] req.headers[j]).0,
                seq!['h', 'o', 's', 't'],
            ),
    ensures
        ({
            let host = s.parsed(ParseView::Complete(at, req)).host;
            if i < 0 {
                host == s.host
            } else {
                let value = text::lossy_utf8(req.headers[i].1);
                &&& value.contains(':') ==> host == value
                &&& !value.contains(':') ==> host == value + seq![':', '8', '0']
            }
        }),
{
    let st = HeaderScan { kept: Seq::empty(), body_length: 0, host: s.host };
    let hs = req.headers;
    lemma_header_names();
    lemma_host_stays(st, hs, i + 1);
    reveal_strlit(":80");
    assert(":80"@ =~= seq![':', '8', '0']);
    if i < 0 {
        assert(hs.take(0) =~= Seq::empty());
    } else {
        assert(hs.take(i + 1).last() == hs[i]);
        assert(hs[i].0.len() == 4);
        let value = text::lossy_utf8(hs[i].1);
        assert(scan_headers(st, hs.take(i + 1)).host == with_port(value));
    }
}

/// What is read of a body of a known length is the next of the received bytes, as many as there
/// are and as there is room for. It counts against the length, and the body ends exactly when
/// nothing of it is left.
pub proof fn body_is_read_to_its_length(s: ReaderView, capacity: usize)
    requires
        s.wf(),
        s.in_body,
        s.body_length > 0,
    ensures
        ({
            let next = body_read(s, capacity);
            let n = s.received.len() - next.received.len();
            &&& 0 <= n <= capacity
            &&& n == capacity || next.received.len() == 0
            &&& next.received == s.received.skip(n)
            &&& next.in_body == (n != s.body_length)
            &&& next.in_body ==> next.body_length == s.body_length - n
            &&& !next.in_body ==> next.body_length == 0
            &&& next.host == s.host
            &&& next.head == s.head
        }),
{
}

/// The tail that is kept of a chunked body is the end of what has come of it so far.
pub open spec fn tail_of(tail: Seq<u8>, seen: Seq<u8>) -> bool {
    &&& tail.len() <= 5
    &&& tail.len() <= seen.len()
    &&& tail.len() == 5 || tail.len() == seen.len()
    &&& seen.skip(seen.len() - tail.len()) == tail
}

/// A chunked body ends exactly when what has come of it ends with an empty chunk, in however many
/// pieces the bytes came.
pub proof fn chunks_end_with_an_empty_one(s: ReaderView, capacity: usize, seen: Seq<u8>)
    requires
        s.wf(),
        s.in_body,
        s.body_length < 0,
        tail_of(s.tail, seen),
    ensures
        ({
            let next = body_read(s, capacity);
            let n = s.received.len() - next.received.len();
            let all = seen + s.received;
            let ended = all.len() >= 5 && all.skip(all.len() - 5) == seq![
                0x30u8,
                0x0d,
                0x0a,
                0x0d,
                0x0a,
            ];
            &&& 0 <= n <= capacity
            &&& n == capacity || next.received.len() == 0
            &&& next.received == s.received.skip(n)
            &&& next.in_body == !ended
            &&& next.in_body ==> next.body_length == s.body_length && tail_of(next.tail, all)
            &&& !next.in_body ==> next.body_length == 0 && next.tail.len() == 0
            &&& next.host == s.host
            &&& next.head == s.head
        }),
{
    let all = seen + s.received;
    let near = s.tail + s.received;
    let tail = last_five(near);
    assert(all.skip(all.len() - tail.len()) =~= tail) by {
        let k = seen.len() - s.tail.len();
        assert forall|i: int| 0 <= i < near.len() implies all[k + i] == #[trigger] near[i] by {
            if i < s.tail.len() {
                assert(seen.skip(k)[i] == s.tail[i]);
            }
        }
    }
    if tail.len() == 5 {
        assert(all.skip(all.len() - 5) == tail);
    } else {
        assert(all.len() < 5);
    }
}

proof fn lemma_without_parts(a: Seq<HeaderView>, b: Seq<HeaderView>, name: Seq<char>)
    ensures
        without(a + b, name) == without(a, name) + without(b, name),
    decreases b.len(),
{
    if b.len() == 0 {
        assert(a + b =~= a);
        assert(without(a, name) + without(b, name) =~= without(a, name));
    } else {
        assert((a + b).drop_last() =~= a + b.drop_last());
        lemma_without_parts(a, b.drop_last(), name);
        assert(without(a + b, name) =~= without(a, name) + without(b, name));
    }
}

/// Removing a name takes out the headers of that name, and leaves each of the others where it
/// stood among the others.
pub proof fn removing_takes_one_name_out(
    a: Seq<HeaderView>,
    h: HeaderView,
    b: Seq<HeaderView>,
    name: Seq<char>,
)
    ensures
        without(a + seq![h] + b, name) == if same_but_case(h.0, name) {
            without(a, name) + without(b, name)
        } else {
            without(a, name) + seq![h] + without(b, name)
        },
{
    lemma_without_parts(a + seq![h], b, name);
    lemma_without_parts(a, seq![h], name);
    assert(seq![h].drop_last() =~= Seq::empty());
    assert(without(seq![h].drop_last(), name) =~= Seq::empty());
    assert(without(a + seq![h] + b, name) =~= if same_but_case(h.0, name) {
        without(a, name) + without(b, name)
    } else {
        without(a, name) + seq![h] + without(b, name)
    });
}

/// What a read of the body gives.
pub open spec fn body_given(s: ReaderView, capacity: usize) -> Seq<u8> {
    if s.in_body && s.body_length != 0 {
        s.received.take(fit(s.received.len(), capacity))
    } else {
        Seq::empty()
    }
}

/// A read without receiving more: the rewritten head first, then the body.
pub open spec fn reads_ready(
    pre: ReaderView,
    post: ReaderView,
    capacity: usize,
    out: Seq<u8>,
) -> bool {
    let n = fit(pre.head.len(), capacity);
    if n > 0 {
        out == pre.head.take(n) && post == (ReaderView { head: pre.head.skip(n), ..pre })
    } else {
        post == body_read(pre, capacity) && out == body_given(pre, capacity)
    }
}

/// The taking in of newly received bytes.
pub open spec fn takes_in(
    pre: ReaderView,
    post: ReaderView,
    data: Seq<u8>,
    capacity: usize,
    r: ReadStep,
) -> bool {
    let got = ReaderView { received: pre.received + data, ..pre };
    let p = http_request(got.received, MAX_HEADERS);
    let next = got.parsed(p);
    match p {
        ParseView::Complete(_, _) => {
            let n = fit(next.head.len(), capacity);
            &&& r is Data
            &&& r->Data_0@ == next.head.take(n)
            &&& post == (ReaderView { head: next.head.skip(n), ..next })
        },
        ParseView::Partial => r is Again && post == next,
        ParseView::Failed => r is Failed && post == next,
    }
}

/// What is read without receiving more comes first from the head and then from the body, and
/// nothing of either is lost: what is given and what is left are what there was.
pub proof fn ready_bytes_are_read_in_order(
    pre: ReaderView,
    post: ReaderView,
    capacity: usize,
    out: Seq<u8>,
)
    requires
        pre.wf(),
        capacity > 0,
        reads_ready(pre, post, capacity, out),
    ensures
        pre.head.len() > 0 ==> {
            &&& out + post.head == pre.head
            &&& out.len() == capacity || post.head.len() == 0
            &&& 0 < out.len() <= capacity
            &&& post.received == pre.received && post.in_body == pre.in_body
        },
        pre.head.len() == 0 && pre.in_body && pre.body_length != 0 ==> {
            &&& out + post.received == pre.received
            &&& out.len() == capacity || post.received.len() == 0
            &&& out.len() <= capacity
        },
        pre.head.len() == 0 && !(pre.in_body && pre.body_length != 0) ==> out.len() == 0
            && post.received == pre.received,
{
    let n = fit(pre.head.len(), capacity);
    assert(pre.head.take(n) + pre.head.skip(n) =~= pre.head);
    let m = fit(pre.received.len(), capacity);
    assert(pre.received.take(m) + pre.received.skip(m) =~= pre.received);
    assert(Seq::<u8>::empty() + pre.received =~= pre.received);
}

/// What is received is parsed behind what was there: a whole head is given in its rewritten form
/// and leaves the rest of what was received, one that is not whole waits with every byte of it,
/// and one that is wrong fails.
pub proof fn received_head_is_given_rewritten(
    pre: ReaderView,
    post: ReaderView,
    data: Seq<u8>,
    capacity: usize,
    r: ReadStep,
)
    requires
        takes_in(pre, post, data, capacity, r),
    ensures
        match http_request(pre.received + data, MAX_HEADERS) {
            ParseView::Complete(n, req) => {
                &&& r is Data
                &&& r->Data_0@ + post.head == pre.rewritten(req).rendered()
                &&& r->Data_0@.len() <= capacity
                &&& post.received == (pre.received + data).skip(n)
            },
            ParseView::Partial => r is Again && post.received == pre.received + data,
            ParseView::Failed => r is Failed,
        },
{
    let got = ReaderView { received: pre.received + data, ..pre };
    let p = http_request(got.received, MAX_HEADERS);
    if let ParseView::Complete(at, req) = p {
        let head = got.parsed(p).head;
        let n = fit(head.len(), capacity);
        assert(head.take(n) + head.skip(n) =~= head);
    }
}

/// A length that is too large for a signed number stands for one below zero, sixty-four bits
/// apart; any other is itself.
pub proof fn lengths_wrap_beyond_the_largest(n: nat)
    requires
        n <= u64::MAX,
    ensures
        n <= i64::MAX ==> wrapped(n) == n,
        n > i64::MAX ==> wrapped(n) < 0 && wrapped(n) + 0x1_0000_0000_0000_0000 == n,
{
}

/// An answer grants a request exactly when it has a status below 300.
pub proof fn low_status_grants(code: u16)
    ensures
        is_ok_code(Some(code)) <==> code <= 299,
        !is_ok_code(None),
{
}

} // verus!
