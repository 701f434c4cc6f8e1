//! The server name in a TLS client's first message.

use vstd::prelude::*;
use crate::text;
use crate::codec;
use crate::codec::read_u16_be;
use crate::text::from_utf8_lossy;

verus! {

/// Whether the bytes start a TLS handshake record of a version that can name its server.
pub fn valid_tls_version(buf: &[u8]) -> (r: bool)
    ensures
        r == (buf@.len() >= 3 && buf@[0] == 0x16 && buf@[1] >= 3),
{
    if buf.len() < 3 {
        return false;
    }
    if buf[0] != 0x16 {
        return false;
    }
    let tls_major_ver: u8 = buf[1];
    if tls_major_ver < 3 {
        return false;
    }
    true
}

/// Why no server name could be read.
#[derive(Debug, PartialEq, Eq, Structural, Clone, Copy)]
pub enum SniError {
    /// The record is too short for a server name.
    NoSpace,
    /// The record holds no client's first message.
    NotClientHello,
    /// The session id overruns the record.
    SessionId,
    /// Nothing follows the session id.
    NoCiphers,
    CipherLen,
    CompressMethodLen,
    AfterCompressMethod,
    ExtLen,
    /// The message has no extensions.
    NoExtension,
    ExtBufLen,
    ExtBufContent,
    ExtBufLength,
    ExtDataLength,
    ExtNameData,
}

impl SniError {
    pub fn message(&self) -> (r: &'static str)
        ensures
            r == sni_message(*self),
    {
        match self {
            SniError::NoSpace => "no sufficient space for sni",
            SniError::NotClientHello => "not clienthello handshake",
            SniError::SessionId => "invalid session id length",
            SniError::NoCiphers => "no space to get sni0",
            SniError::CipherLen => "invalid cipher_len",
            SniError::CompressMethodLen => "invalid compress_method_len",
            SniError::AfterCompressMethod => "invalid after compress_method",
            SniError::ExtLen => "invalid ext_len",
            SniError::NoExtension => "no extension in client_hello",
            SniError::ExtBufLen => "invalid ext buf len",
            SniError::ExtBufContent => "invalid ext buf content",
            SniError::ExtBufLength => "invalid ext buf length",
            SniError::ExtDataLength => "invalid ext data length",
            SniError::ExtNameData => "invalid ext name data",
        }
    }
}

pub open spec fn sni_message(e: SniError) -> &'static str {
    match e {
        SniError::NoSpace => "no sufficient space for sni",
        SniError::NotClientHello => "not clienthello handshake",
        SniError::SessionId => "invalid session id length",
        SniError::NoCiphers => "no space to get sni0",
        SniError::CipherLen => "invalid cipher_len",
        SniError::CompressMethodLen => "invalid compress_method_len",
        SniError::AfterCompressMethod => "invalid after compress_method",
        SniError::ExtLen => "invalid ext_len",
        SniError::NoExtension => "no extension in client_hello",
        SniError::ExtBufLen => "invalid ext buf len",
        SniError::ExtBufContent => "invalid ext buf content",
        SniError::ExtBufLength => "invalid ext buf length",
        SniError::ExtDataLength => "invalid ext data length",
        SniError::ExtNameData => "invalid ext name data",
    }
}

/// The bytes of the whole record, header and all, as its first five bytes announce it. One that
/// is too short for a server name is refused.
pub fn sni_record_len(head: &[u8]) -> (r: Result<usize, SniError>)
    requires
        head@.len() >= 5,
    ensures
        codec::be16_at(head@, 3) < 47 ==> r == Err::<usize, SniError>(SniError::NoSpace),
        codec::be16_at(head@, 3) >= 47 ==> r is Ok && r->Ok_0 == codec::be16_at(head@, 3) + 5,
{
    let n: usize = read_u16_be(head, 3) as usize;
    if n < 47 {
        return Err(SniError::NoSpace);
    }
    Ok(n + 5)
}

/// Where a list of `n` names that starts at `at` holds a host name: its place and length. `None`
/// where there is none in the list.
pub open spec fn host_in_names(s: Seq<u8>, at: int, n: nat) -> Result<
    Option<(int, int)>,
    SniError,
>
    decreases n,
{
    if n == 0 {
        Ok(None)
    } else if s.len() - at < 3 {
        Err(SniError::ExtDataLength)
    } else {
        let len = codec::be16_at(s, at + 1);
        if s.len() - at - 3 < len {
            Err(SniError::ExtNameData)
        } else if s[at] == 0 {
            Ok(Some((at + 3, len as int)))
        } else {
            host_in_names(s, at + 3 + len, (n - 1) as nat)
        }
    }
}

/// Where the extensions that start at `at` hold a host name. They are searched to the end of the
/// record; without a host name the search ends in an error.
pub open spec fn host_in_extensions(s: Seq<u8>, at: int) -> Result<(int, int), SniError>
    decreases s.len() - at,
{
    if s.len() - at < 4 {
        Err(SniError::ExtBufLen)
    } else {
        let kind = codec::be16_at(s, at);
        let len = codec::be16_at(s, at + 2);
        if s.len() - at - 4 < len {
            Err(SniError::ExtBufContent)
        } else if kind == 0 && len < 2 {
            Err(SniError::ExtBufLength)
        } else if kind == 0 {
            match host_in_names(s, at + 6, codec::be16_at(s, at + 4) as nat) {
                Ok(Some(place)) => Ok(place),
                Ok(None) => host_in_extensions(s, at + 4 + len),
                Err(e) => Err(e),
            }
        } else {
            host_in_extensions(s, at + 4 + len)
        }
    }
}

/// Where the record holds a host name.
pub open spec fn host_in_record(s: Seq<u8>) -> Result<(int, int), SniError> {
    if s.len() < 47 || s[5] != 1 {
        Err(SniError::NotClientHello)
    } else if s.len() < 44 + s[43] {
        Err(SniError::SessionId)
    } else {
        let ciphers = 44 + s[43];
        if s.len() - ciphers < 2 {
            Err(SniError::NoCiphers)
        } else {
            let cipher_len = codec::be16_at(s, ciphers);
            if cipher_len % 2 == 1 || s.len() - ciphers < 3 + cipher_len {
                Err(SniError::CipherLen)
            } else {
                let methods = ciphers + 2 + cipher_len;
                if s.len() - methods < 1 + s[methods] {
                    Err(SniError::CompressMethodLen)
                } else {
                    let exts = methods + 1 + s[methods];
                    if s.len() - exts < 2 {
                        Err(SniError::AfterCompressMethod)
                    } else if s.len() - exts - 2 < codec::be16_at(s, exts) {
                        Err(SniError::ExtLen)
                    } else if codec::be16_at(s, exts) == 0 {
                        Err(SniError::NoExtension)
                    } else {
                        host_in_extensions(s, exts + 2)
                    }
                }
            }
        }
    }
}

/// What a search came to, in machine integers.
spec fn found(r: Result<(usize, usize), SniError>, t: Result<(int, int), SniError>) -> bool {
    match t {
        Ok((at, len)) => r is Ok && r->Ok_0.0 == at && r->Ok_0.1 == len,
        Err(e) => r is Err && r->Err_0 == e,
    }
}

fn search_names(data: &[u8], from: usize, count: u16) -> (r: Result<
    Option<(usize, usize)>,
    SniError,
>)
    requires
        from <= data@.len(),
    ensures
        match host_in_names(data@, from as int, count as nat) {
            Ok(Some((at, len))) => {
                &&& r is Ok && r->Ok_0 is Some
                &&& r->Ok_0->Some_0.0 == at && r->Ok_0->Some_0.1 == len
                &&& at + len <= data@.len()
            },
            Ok(None) => r is Ok && r->Ok_0 is None,
            Err(e) => r is Err && r->Err_0 == e,
        },
{
    let mut at: usize = from;
    let mut left: u16 = count;
    let size: usize = data.len();
    while left > 0
        invariant
            at <= size == data@.len(),
            host_in_names(data@, at as int, left as nat) == host_in_names(
                data@,
                from as int,
                count as nat,
            ),
        decreases left,
    {
        if size - at < 3 {
            return Err(SniError::ExtDataLength);
        }
        let name_type: u8 = data[at];
        let name_len: usize = read_u16_be(data, at + 1) as usize;
        if size - at - 3 < name_len {
            return Err(SniError::ExtNameData);
        }
        if name_type == 0 {
            return Ok(Some((at + 3, name_len)));
        }
        at = at + 3 + name_len;
        left = left - 1;
    }
    Ok(None)
}

fn search_extensions(data: &[u8], from: usize) -> (r: Result<(usize, usize), SniError>)
    requires
        from <= data@.len(),
    ensures
        found(r, host_in_extensions(data@, from as int)),
        r is Ok ==> r->Ok_0.0 + r->Ok_0.1 <= data@.len(),
{
    let mut at: usize = from;
    let size: usize = data.len();
    loop
        invariant
            at <= size == data@.len(),
            host_in_extensions(data@, at as int) == host_in_extensions(data@, from as int),
        decreases size - at,
    {
        if size - at < 4 {
            return Err(SniError::ExtBufLen);
        }
        let kind: u16 = read_u16_be(data, at);
        let length: usize = read_u16_be(data, at + 2) as usize;
        if size - at - 4 < length {
            return Err(SniError::ExtBufContent);
        }
        if kind == 0 {
            if length < 2 {
                return Err(SniError::ExtBufLength);
            }
            let num_names: u16 = read_u16_be(data, at + 4);
            match search_names(data, at + 6, num_names) {
                Ok(Some(place)) => {
                    return Ok(place);
                },
                Ok(None) => {},
                Err(e) => {
                    return Err(e);
                },
            }
        }
        at = at + 4 + length;
    }
}

fn search_record(data: &[u8]) -> (r: Result<(usize, usize), SniError>)
    ensures
        found(r, host_in_record(data@)),
        r is Ok ==> r->Ok_0.0 + r->Ok_0.1 <= data@.len(),
{
    let size: usize = data.len();
    if size < 47 || data[5] != 0x01 {
        return Err(SniError::NotClientHello);
    }
    let sid_len: usize = data[43] as usize;
    if size < 44 + sid_len {
        return Err(SniError::SessionId);
    }
    let ciphers: usize = 44 + sid_len;
    if size - ciphers < 2 {
        return Err(SniError::NoCiphers);
    }
    let cipher_len: usize = read_u16_be(data, ciphers) as usize;
    if cipher_len % 2 == 1 || size - ciphers < 3 + cipher_len {
        return Err(SniError::CipherLen);
    }
    let methods: usize = ciphers + 2 + cipher_len;
    let compress_method_len: usize = data[methods] as usize;
    if size - methods < 1 + compress_method_len {
        return Err(SniError::CompressMethodLen);
    }
    let exts: usize = methods + 1 + compress_method_len;
    if size - exts < 2 {
        return Err(SniError::AfterCompressMethod);
    }
    let ext_len: usize = read_u16_be(data, exts) as usize;
    if size - exts - 2 < ext_len {
        return Err(SniError::ExtLen);
    }
    if ext_len == 0 {
        return Err(SniError::NoExtension);
    }
    search_extensions(data, exts + 2)
}

/// The server name in a handshake record.
pub fn peek_sni(data: &[u8]) -> (r: Result<String, SniError>)
    ensures
        match host_in_record(data@) {
            Ok((at, len)) => r is Ok && r->Ok_0@ == text::lossy_utf8(data@.subrange(at, at + len)),
            Err(e) => r is Err && r->Err_0 == e,
        },
{
    let _size: usize = data.len();
    match search_record(data) {
        Ok((at, len)) => Ok(from_utf8_lossy(vstd::slice::slice_subrange(data, at, at + len))),
        Err(e) => Err(e),
    }
}

/// The target that a TLS connection is relayed to.
pub fn tls_target(sni: String) -> (r: String)
    ensures
        r@ == sni@ + ":443"@,
{
    let mut target: String = sni;
    target.push_str(":443");
    target
}

/// A number in two bytes, the more significant first.
pub open spec fn two_bytes(n: nat) -> Seq<u8> {
    seq![(n / 256) as u8, (n % 256) as u8]
}

/// An extension: its kind, the length of its content, and the content.
pub open spec fn extension(kind: nat, content: Seq<u8>) -> Seq<u8> {
    two_bytes(kind) + two_bytes(content.len()) + content
}

/// Extensions, one after the other.
pub open spec fn extensions(list: Seq<(nat, Seq<u8>)>) -> Seq<u8>
    decreases list.len(),
{
    if list.len() == 0 {
        Seq::empty()
    } else {
        extension(list[0].0, list[0].1) + extensions(list.skip(1))
    }
}

/// The extension that names a server: a list with one host name.
pub open spec fn server_name(name: Seq<u8>) -> Seq<u8> {
    extension(0, two_bytes(name.len() + 3) + seq![0u8] + two_bytes(name.len()) + name)
}

/// A client's first message: forty-three bytes of headers, version and random bytes, then the
/// session id, the cipher suites, the compression methods and the extensions, each behind its
/// length.
pub open spec fn client_hello(
    start: Seq<u8>,
    id: Seq<u8>,
    suites: Seq<u8>,
    methods: Seq<u8>,
    exts: Seq<u8>,
) -> Seq<u8> {
    start + seq![id.len() as u8] + id + two_bytes(suites.len()) + suites + seq![
        methods.len() as u8,
    ] + methods + two_bytes(exts.len()) + exts
}

/// The parts of a first message are of lengths that it can announce, and its start says what it
/// is.
pub open spec fn hello_parts(
    start: Seq<u8>,
    id: Seq<u8>,
    suites: Seq<u8>,
    methods: Seq<u8>,
    exts: Seq<u8>,
) -> bool {
    &&& start.len() == 43
    &&& start[5] == 1
    &&& id.len() < 256
    &&& suites.len() < 65536
    &&& suites.len() % 2 == 0
    &&& methods.len() < 256
    &&& exts.len() < 65536
}

/// Extensions of other kinds, with contents whose length can be announced.
pub open spec fn other_extensions(list: Seq<(nat, Seq<u8>)>) -> bool {
    forall|i: int|
        0 <= i < list.len() ==> 0 < (#[trigger] list[i]).0 < 65536 && list[i].1.len() < 65536
}

proof fn lemma_two_bytes(n: nat, s: Seq<u8>, at: int)
    requires
        n < 65536,
        0 <= at,
        at + 2 <= s.len(),
        s.subrange(at, at + 2) == two_bytes(n),
    ensures
        codec::be16_at(s, at) == n,
{
    assert(s[at] == s.subrange(at, at + 2)[0]);
    assert(s[at + 1] == s.subrange(at, at + 2)[1]);
}

/// The search gets past extensions of other kinds.
proof fn lemma_search_goes_on(
    s: Seq<u8>,
    at: int,
    list: Seq<(nat, Seq<u8>)>,
    rest: Seq<u8>,
)
    requires
        other_extensions(list),
        0 <= at <= s.len(),
        s.skip(at) == extensions(list) + rest,
    ensures
        host_in_extensions(s, at) == host_in_extensions(s, at + extensions(list).len()),
        s.skip(at + extensions(list).len()) == rest,
    decreases list.len(),
{
    if list.len() > 0 {
        let (kind, content) = list[0];
        let e = extension(kind, content);
        let tail = s.skip(at);
        assert(tail =~= e + (extensions(list.skip(1)) + rest));
        assert(s.subrange(at, at + 2) =~= two_bytes(kind)) by {
            assert(s.subrange(at, at + 2) =~= tail.take(2));
        }
        assert(s.subrange(at + 2, at + 4) =~= two_bytes(content.len())) by {
            assert(s.subrange(at + 2, at + 4) =~= tail.subrange(2, 4));
        }
        lemma_two_bytes(kind, s, at);
        lemma_two_bytes(content.len(), s, at + 2);
        let next = at + e.len();
        assert(s.skip(next) =~= tail.skip(e.len() as int));
        assert(s.skip(next) =~= extensions(list.skip(1)) + rest);
        assert forall|i: int| 0 <= i < list.skip(1).len() implies 0 < (
        #[trigger] list.skip(1)[i]).0 < 65536 && list.skip(1)[i].1.len() < 65536 by {
            assert(list.skip(1)[i] == list[i + 1]);
        }
        lemma_search_goes_on(s, next, list.skip(1), rest);
    } else {
        assert(s.skip(at) =~= rest);
    }
}

/// The search finds the host name in the extension that names a server.
proof fn lemma_name_is_found(s: Seq<u8>, at: int, name: Seq<u8>, rest: Seq<u8>)
    requires
        0 <= at <= s.len(),
        name.len() + 5 < 65536,
        s.skip(at) == server_name(name) + rest,
    ensures
        host_in_extensions(s, at) == Ok::<(int, int), SniError>((at + 9, name.len() as int)),
        s.subrange(at + 9, at + 9 + name.len()) == name,
{
    let n = name.len();
    let tail = server_name(name) + rest;
    let content = two_bytes(n + 3) + seq![0u8] + two_bytes(n) + name;
    assert(content.len() == n + 5);
    assert(server_name(name) == two_bytes(0) + two_bytes(n + 5) + content);
    assert(tail.len() >= n + 9);
    assert(s.subrange(at, at + 2) =~= two_bytes(0)) by {
        assert(s.subrange(at, at + 2) =~= tail.take(2));
    }
    assert(s.subrange(at + 2, at + 4) =~= two_bytes(n + 5)) by {
        assert(s.subrange(at + 2, at + 4) =~= tail.subrange(2, 4));
    }
    assert(s.subrange(at + 4, at + 6) =~= two_bytes(n + 3)) by {
        assert(s.subrange(at + 4, at + 6) =~= tail.subrange(4, 6));
    }
    assert(s[at + 6] == tail[6]);
    assert(s.subrange(at + 7, at + 9) =~= two_bytes(n)) by {
        assert(s.subrange(at + 7, at + 9) =~= tail.subrange(7, 9));
    }
    lemma_two_bytes(0, s, at);
    lemma_two_bytes(n + 5, s, at + 2);
    lemma_two_bytes(n + 3, s, at + 4);
    lemma_two_bytes(n, s, at + 7);
    assert(s.subrange(at + 9, at + 9 + n) =~= name) by {
        assert(s.subrange(at + 9, at + 9 + n) =~= tail.subrange(9, 9 + n as int));
    }
}

proof fn lemma_name_is_found_behind(
    s: Seq<u8>,
    at: int,
    before: Seq<(nat, Seq<u8>)>,
    name: Seq<u8>,
    behind: Seq<u8>,
)
    requires
        0 <= at <= s.len(),
        other_extensions(before),
        s.skip(at) == extensions(before) + server_name(name) + behind,
        s.skip(at).len() < 65536,
    ensures
        host_in_extensions(s, at) is Ok,
        ({
            let (from, len) = host_in_extensions(s, at)->Ok_0;
            s.subrange(from, from + len) == name
        }),
{
    let rest = server_name(name) + behind;
    assert(s.skip(at) =~= extensions(before) + rest);
    assert(server_name(name).len() == name.len() + 9);
    lemma_search_goes_on(s, at, before, rest);
    lemma_name_is_found(s, at + extensions(before).len(), name, behind);
}

/// The search starts with the extensions.
proof fn lemma_extensions_are_searched(
    start: Seq<u8>,
    id: Seq<u8>,
    suites: Seq<u8>,
    methods: Seq<u8>,
    exts: Seq<u8>,
)
    requires
        hello_parts(start, id, suites, methods, exts),
        exts.len() > 0,
    ensures
        ({
            let s = client_hello(start, id, suites, methods, exts);
            let at = 49 + id.len() + suites.len() + methods.len();
            &&& host_in_record(s) == host_in_extensions(s, at as int)
            &&& s.skip(at as int) == exts
        }),
{
    let s = client_hello(start, id, suites, methods, exts);
    let c = (44 + id.len()) as int;
    let m = (c + 2 + suites.len()) as int;
    let e = (m + 1 + methods.len()) as int;
    assert(s[5] == start[5]);
    assert(s[43] == id.len() as u8);
    assert(s.subrange(c, c + 2) =~= two_bytes(suites.len()));
    lemma_two_bytes(suites.len(), s, c);
    assert(s[m] == methods.len() as u8);
    assert(s.subrange(e, e + 2) =~= two_bytes(exts.len()));
    lemma_two_bytes(exts.len(), s, e);
    assert(s.skip(e + 2) =~= exts);
}

/// Whatever session id, cipher suites and compression methods a client's first message has, and
/// whatever other extensions stand before and behind the one that names the server: the name that
/// is found is the one in it.
pub proof fn named_server_is_found(
    start: Seq<u8>,
    id: Seq<u8>,
    suites: Seq<u8>,
    methods: Seq<u8>,
    before: Seq<(nat, Seq<u8>)>,
    name: Seq<u8>,
    behind: Seq<u8>,
)
    requires
        hello_parts(
            start,
            id,
            suites,
            methods,
            extensions(before) + server_name(name) + behind,
        ),
        other_extensions(before),
    ensures
        ({
            let exts = extensions(before) + server_name(name) + behind;
            let s = client_hello(start, id, suites, methods, exts);
            &&& host_in_record(s) is Ok
            &&& s.subrange(
                host_in_record(s)->Ok_0.0,
                host_in_record(s)->Ok_0.0 + host_in_record(s)->Ok_0.1,
            ) == name
        }),
{
    let exts = extensions(before) + server_name(name) + behind;
    let s = client_hello(start, id, suites, methods, exts);
    let at = (49 + id.len() + suites.len() + methods.len()) as int;
    lemma_extensions_are_searched(start, id, suites, methods, exts);
    lemma_name_is_found_behind(s, at, before, name, behind);
}

/// A first message whose extensions name no server gives no name.
pub proof fn no_name_without_a_server_name(
    start: Seq<u8>,
    id: Seq<u8>,
    suites: Seq<u8>,
    methods: Seq<u8>,
    list: Seq<(nat, Seq<u8>)>,
)
    requires
        hello_parts(start, id, suites, methods, extensions(list)),
        other_extensions(list),
    ensures
        host_in_record(client_hello(start, id, suites, methods, extensions(list))) is Err,
{
    let exts = extensions(list);
    let s = client_hello(start, id, suites, methods, exts);
    let at = (49 + id.len() + suites.len() + methods.len()) as int;
    if exts.len() > 0 {
        lemma_extensions_are_searched(start, id, suites, methods, exts);
        assert(exts =~= extensions(list) + Seq::<u8>::empty());
        lemma_search_goes_on(s, at, list, Seq::empty());
    } else {
        let c = (44 + id.len()) as int;
        let m = (c + 2 + suites.len()) as int;
        let e = (m + 1 + methods.len()) as int;
        assert(s[43] == id.len() as u8);
        assert(s.subrange(c, c + 2) =~= two_bytes(suites.len()));
        lemma_two_bytes(suites.len(), s, c);
        assert(s[m] == methods.len() as u8);
        assert(s.subrange(e, e + 2) =~= two_bytes(0));
        lemma_two_bytes(0, s, e);
    }
}

/// A first message that names no server says why none is found: it has no extensions, or they have
/// come to their end.
pub proof fn missing_name_is_told_apart(
    start: Seq<u8>,
    id: Seq<u8>,
    suites: Seq<u8>,
    methods: Seq<u8>,
    list: Seq<(nat, Seq<u8>)>,
)
    requires
        hello_parts(start, id, suites, methods, extensions(list)),
        other_extensions(list),
    ensures
        host_in_record(client_hello(start, id, suites, methods, extensions(list))) == if list.len()
            == 0 {
            Err::<(int, int), SniError>(SniError::NoExtension)
        } else {
            Err(SniError::ExtBufLen)
        },
{
    let exts = extensions(list);
    let s = client_hello(start, id, suites, methods, exts);
    let at = (49 + id.len() + suites.len() + methods.len()) as int;
    if list.len() > 0 {
        assert(exts.len() >= 4);
        lemma_extensions_are_searched(start, id, suites, methods, exts);
        assert(exts =~= extensions(list) + Seq::<u8>::empty());
        lemma_search_goes_on(s, at, list, Seq::empty());
    } else {
        let c = (44 + id.len()) as int;
        let m = (c + 2 + suites.len()) as int;
        let e = (m + 1 + methods.len()) as int;
        assert(exts.len() == 0);
        assert(s[5] == start[5]);
        assert(s[43] == id.len());
        assert(s[c] == two_bytes(suites.len())[0] && s[c + 1] == two_bytes(suites.len())[1]);
        assert(s[m] == methods.len());
        assert(s[e] == two_bytes(0)[0] && s[e + 1] == two_bytes(0)[1]);
    }
}

} // verus!
