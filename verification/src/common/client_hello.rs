//! The first message of a TLS client.

use vstd::prelude::*;
use crate::codec;
use crate::codec::{read_u16_be, read_u32_be};

verus! {

pub const CONTENT_TYPE_HANDSHAKE: u8 = 0x16;

pub type Opaque = u8;

#[derive(Debug)]
pub struct Random {
    pub gmt_unix_time: u32,
    pub random_bytes: [Opaque; 28],
}

impl Default for Random {
    fn default() -> (r: Random)
        ensures
            r.gmt_unix_time == 0,
            r.random_bytes@ == Seq::new(28, |i: int| 0u8),
    {
        let r = Random { gmt_unix_time: 0, random_bytes: [0; 28] };
        assert(r.random_bytes@ =~= Seq::new(28, |i: int| 0u8));
        r
    }
}

#[derive(Debug, PartialEq, Eq, Structural, Clone, Copy)]
pub struct CompressionMethod(pub u8);

#[derive(Debug, PartialEq, Eq, Structural, Clone, Copy)]
pub struct CipherSuite(pub u8, pub u8);

#[derive(Debug, PartialEq, Eq, Structural, Clone, Copy)]
pub struct ExtensionType(pub u16);

#[derive(Debug)]
pub struct Extension {
    pub extension_type: ExtensionType,
    pub length: u16,
    pub extension_data: Vec<Opaque>,
}

#[derive(Debug, PartialEq, Eq, Structural, Clone, Copy)]
pub struct Version {
    pub major: u8,
    pub minor: u8,
}

impl Default for Version {
    fn default() -> (r: Version)
        ensures
            r == (Version { major: 0, minor: 0 }),
    {
        Version { major: 0, minor: 0 }
    }
}

/// What a client sends first.
#[derive(Debug)]
pub struct ClientHello {
    pub client_version: Version,
    pub random: Random,
    pub session_id: Vec<Opaque>,
    pub cipher_suites: Vec<CipherSuite>,
    pub compression_methods: Vec<CompressionMethod>,
    pub extensions: Vec<Extension>,
}

impl Default for ClientHello {
    fn default() -> (r: ClientHello)
        ensures
            r@ == HelloView::blank(),
    {
        let r = ClientHello {
            client_version: Version::default(),
            random: Random::default(),
            session_id: Vec::new(),
            cipher_suites: Vec::new(),
            compression_methods: Vec::new(),
            extensions: Vec::new(),
        };
        assert(r@ =~= HelloView::blank());
        r
    }
}

#[derive(Debug, PartialEq, Eq, Structural, Clone, Copy)]
pub enum ContentType {
    Unknown,
    Handshake,
    Other,
}

impl Default for ContentType {
    fn default() -> (r: ContentType)
        ensures
            r == ContentType::Unknown,
    {
        ContentType::Unknown
    }
}

impl From<u8> for ContentType {
    fn from(u: u8) -> (r: ContentType) {
        if u == CONTENT_TYPE_HANDSHAKE {
            ContentType::Handshake
        } else {
            ContentType::Other
        }
    }
}

impl vstd::std_specs::convert::FromSpecImpl<u8> for ContentType {
    open spec fn obeys_from_spec() -> bool {
        true
    }

    open spec fn from_spec(u: u8) -> ContentType {
        if u == CONTENT_TYPE_HANDSHAKE {
            ContentType::Handshake
        } else {
            ContentType::Other
        }
    }
}

/// An extension as it was sent.
pub struct ExtensionView {
    pub kind: u16,
    pub data: Seq<u8>,
}

impl View for Extension {
    type V = ExtensionView;

    open spec fn view(&self) -> ExtensionView {
        ExtensionView { kind: self.extension_type.0, data: self.extension_data@ }
    }
}

/// What a client's first message says.
#[verifier::ext_equal]
pub struct HelloView {
    pub version: Version,
    pub gmt_unix_time: u32,
    pub random_bytes: Seq<u8>,
    pub session_id: Seq<u8>,
    pub cipher_suites: Seq<CipherSuite>,
    pub compression_methods: Seq<CompressionMethod>,
    pub extensions: Seq<ExtensionView>,
}

impl HelloView {
    pub open spec fn blank() -> HelloView {
        HelloView {
            version: Version { major: 0, minor: 0 },
            gmt_unix_time: 0,
            random_bytes: Seq::new(28, |i: int| 0u8),
            session_id: Seq::empty(),
            cipher_suites: Seq::empty(),
            compression_methods: Seq::empty(),
            extensions: Seq::empty(),
        }
    }
}

pub open spec fn extension_views(v: Seq<Extension>) -> Seq<ExtensionView> {
    Seq::new(v.len(), |i: int| v[i]@)
}

impl View for ClientHello {
    type V = HelloView;

    open spec fn view(&self) -> HelloView {
        HelloView {
            version: self.client_version,
            gmt_unix_time: self.random.gmt_unix_time,
            random_bytes: self.random.random_bytes@,
            session_id: self.session_id@,
            cipher_suites: self.cipher_suites@,
            compression_methods: self.compression_methods@,
            extensions: extension_views(self.extensions@),
        }
    }
}

/// Each extension's length is that of its data.
pub open spec fn lengths_fit(v: Seq<Extension>) -> bool {
    forall|i: int| 0 <= i < v.len() ==> (#[trigger] v[i]).length == v[i].extension_data@.len()
}

/// Why the bytes are no client's first message.
#[derive(Debug, PartialEq, Eq, Structural, Clone, Copy)]
pub enum HelloError {
    /// The message ends too early.
    UnexpectedEof,
    /// "Bad content type"
    BadContentType,
    /// "Wrong handshake type"
    WrongHandshakeType,
}

/// The cipher suites that stand from position `at` on.
pub open spec fn suites_at(s: Seq<u8>, at: int, n: nat) -> Seq<CipherSuite> {
    Seq::new(n, |i: int| CipherSuite(s[at + 2 * i], s[at + 2 * i + 1]))
}

/// The compression methods that stand from position `at` on.
pub open spec fn methods_at(s: Seq<u8>, at: int, n: nat) -> Seq<CompressionMethod> {
    Seq::new(n, |i: int| CompressionMethod(s[at + i]))
}

/// The extensions from position `at` on, which make up the next `left` bytes exactly; `None`
/// where the bytes end before that. Extensions that overrun `left` never come to an end.
pub open spec fn extensions_at(s: Seq<u8>, at: int, left: int) -> Option<Seq<ExtensionView>>
    decreases s.len() - at,
{
    if left == 0 {
        Some(Seq::empty())
    } else if at < 0 || at + 4 > s.len() {
        None
    } else {
        let len = codec::be16_at(s, at + 2);
        if at + 4 + len > s.len() {
            None
        } else {
            let first = ExtensionView {
                kind: codec::be16_at(s, at),
                data: s.subrange(at + 4, at + 4 + len),
            };
            match extensions_at(s, at + 4 + len, left - 4 - len) {
                Some(rest) => Some(seq![first] + rest),
                None => None,
            }
        }
    }
}

/// What the bytes of a client's first message say.
pub open spec fn hello_of(s: Seq<u8>) -> Result<HelloView, HelloError> {
    if s.len() < 1 {
        Err(HelloError::UnexpectedEof)
    } else if s[0] != CONTENT_TYPE_HANDSHAKE {
        Err(HelloError::BadContentType)
    } else if s.len() < 6 {
        Err(HelloError::UnexpectedEof)
    } else if s[5] != 1 {
        Err(HelloError::WrongHandshakeType)
    } else if s.len() < 44 {
        Err(HelloError::UnexpectedEof)
    } else {
        let suites = 44 + s[43];
        if s.len() < suites + 2 {
            Err(HelloError::UnexpectedEof)
        } else {
            let n_suites = codec::be16_at(s, suites) / 2;
            let methods = suites + 2 + 2 * n_suites;
            if s.len() < methods + 1 {
                Err(HelloError::UnexpectedEof)
            } else {
                let n_methods = s[methods];
                let extensions = methods + 1 + n_methods;
                if s.len() < extensions + 2 {
                    Err(HelloError::UnexpectedEof)
                } else {
                    match extensions_at(s, extensions + 2, codec::be16_at(s, extensions) as int) {
                        Some(exts) => Ok(
                            HelloView {
                                version: Version { major: s[9], minor: s[10] },
                                gmt_unix_time: codec::be32_at(s, 11),
                                random_bytes: s.subrange(15, 43),
                                session_id: s.subrange(44, suites),
                                cipher_suites: suites_at(s, suites + 2, n_suites as nat),
                                compression_methods: methods_at(s, methods + 1, n_methods as nat),
                                extensions: exts,
                            },
                        ),
                        None => Err(HelloError::UnexpectedEof),
                    }
                }
            }
        }
    }
}

/// Makes a `ClientHello` of the bytes of a message.
#[derive(Debug)]
pub struct ClientHelloBuilder {
    client_hello: ClientHello,
}

impl Default for ClientHelloBuilder {
    fn default() -> (r: ClientHelloBuilder)
        ensures
            r.is_fresh(),
    {
        ClientHelloBuilder { client_hello: ClientHello::default() }
    }
}

fn read_suites(bytes: &[u8], at: usize, n: usize) -> (r: Vec<CipherSuite>)
    requires
        at + 2 * n <= bytes@.len(),
    ensures
        r@ == suites_at(bytes@, at as int, n as nat),
{
    let mut v: Vec<CipherSuite> = Vec::new();
    let mut i: usize = 0;
    let size: usize = bytes.len();
    while i < n
        invariant
            i <= n,
            at + 2 * n <= size == bytes@.len(),
            v@ == suites_at(bytes@, at as int, i as nat),
        decreases n - i,
    {
        v.push(CipherSuite(bytes[at + 2 * i], bytes[at + 2 * i + 1]));
        i += 1;
        assert(v@ =~= suites_at(bytes@, at as int, i as nat));
    }
    v
}

fn read_methods(bytes: &[u8], at: usize, n: usize) -> (r: Vec<CompressionMethod>)
    requires
        at + n <= bytes@.len(),
    ensures
        r@ == methods_at(bytes@, at as int, n as nat),
{
    let mut v: Vec<CompressionMethod> = Vec::new();
    let mut i: usize = 0;
    let size: usize = bytes.len();
    while i < n
        invariant
            i <= n,
            at + n <= size == bytes@.len(),
            v@ == methods_at(bytes@, at as int, i as nat),
        decreases n - i,
    {
        v.push(CompressionMethod(bytes[at + i]));
        i += 1;
        assert(v@ =~= methods_at(bytes@, at as int, i as nat));
    }
    v
}

fn read_random(bytes: &[u8], at: usize) -> (r: [u8; 28])
    requires
        at + 28 <= bytes@.len(),
    ensures
        r@ == bytes@.subrange(at as int, at + 28),
{
    let mut a: [u8; 28] = [0; 28];
    let mut i: usize = 0;
    let size: usize = bytes.len();
    while i < 28
        invariant
            i <= 28,
            at + 28 <= size == bytes@.len(),
            forall|j: int| 0 <= j < i ==> a@[j] == bytes@[at + j],
        decreases 28 - i,
    {
        a[i] = bytes[at + i];
        i += 1;
    }
    assert(a@ =~= bytes@.subrange(at as int, at + 28));
    a
}

/// Reads the extensions that make up `length` bytes from position `from` on.
fn read_extensions(bytes: &[u8], from: usize, length: u16) -> (r: Option<Vec<Extension>>)
    requires
        from <= bytes@.len(),
    ensures
        match r {
            Some(v) => {
                &&& extensions_at(bytes@, from as int, length as int) == Some(extension_views(v@))
                &&& lengths_fit(v@)
            },
            None => extensions_at(bytes@, from as int, length as int) is None,
        },
{
    let ghost s = bytes@;
    let mut at: usize = from;
    let mut consumed: usize = 0;
    let total: usize = length as usize;
    let mut v: Vec<Extension> = Vec::new();
    while consumed != total
        invariant
            s == bytes@,
            at <= s.len(),
            at == from + consumed,
            total == length,
            lengths_fit(v@),
            extensions_at(s, from as int, total as int) == match extensions_at(
                s,
                at as int,
                total - consumed,
            ) {
                Some(rest) => Some(extension_views(v@) + rest),
                None => None::<Seq<ExtensionView>>,
            },
        decreases s.len() - at,
    {
        if bytes.len() - at < 4 {
            return None;
        }
        let extension_type: u16 = read_u16_be(bytes, at);
        let len: u16 = read_u16_be(bytes, at + 2);
        if bytes.len() - at - 4 < len as usize {
            return None;
        }
        let end: usize = at + 4 + len as usize;
        let extension_data = vstd::slice::slice_to_vec(
            vstd::slice::slice_subrange(bytes, at + 4, end),
        );
        let ghost before = v@;
        let ext = Extension {
            extension_type: ExtensionType(extension_type),
            length: len,
            extension_data,
        };
        let ghost first = ext@;
        v.push(ext);
        proof {
            if let Some(rest) = extensions_at(s, end as int, total - consumed - 4 - len) {
                assert(extension_views(before) + (seq![first] + rest) =~= extension_views(v@)
                    + rest);
            }
        }
        consumed = consumed + 4 + len as usize;
        at = end;
    }
    assert(extension_views(v@) + Seq::<ExtensionView>::empty() =~= extension_views(v@));
    Some(v)
}

impl ClientHelloBuilder {
    /// Nothing has been built yet.
    pub closed spec fn is_fresh(self) -> bool {
        self.client_hello@ == HelloView::blank()
    }

    pub fn new() -> (r: ClientHelloBuilder)
        ensures
            r.is_fresh(),
    {
        ClientHelloBuilder::default()
    }

    /// Reads the message, which must be there in its entirety. What follows it is not looked at.
    pub fn parse_bytes(self, bytes: &[u8]) -> (r: Result<ClientHello, HelloError>)
        ensures
            match hello_of(bytes@) {
                Ok(h) => r is Ok && r->Ok_0@ == h && lengths_fit(r->Ok_0.extensions@),
                Err(e) => r is Err && r->Err_0 == e,
            },
    {
        let n: usize = bytes.len();
        if n < 1 {
            return Err(HelloError::UnexpectedEof);
        }
        match ContentType::from(bytes[0]) {
            ContentType::Handshake => {},
            _ => {
                return Err(HelloError::BadContentType);
            },
        }
        if n < 6 {
            return Err(HelloError::UnexpectedEof);
        }
        if bytes[5] != 1 {
            return Err(HelloError::WrongHandshakeType);
        }
        if n < 44 {
            return Err(HelloError::UnexpectedEof);
        }
        let mut client_hello = self.client_hello;
        client_hello.client_version = Version { major: bytes[9], minor: bytes[10] };
        client_hello.random = Random {
            gmt_unix_time: read_u32_be(bytes, 11),
            random_bytes: read_random(bytes, 15),
        };
        let suites: usize = 44 + bytes[43] as usize;
        if n < suites + 2 {
            return Err(HelloError::UnexpectedEof);
        }
        client_hello.session_id = vstd::slice::slice_to_vec(
            vstd::slice::slice_subrange(bytes, 44, suites),
        );
        let n_suites: usize = (read_u16_be(bytes, suites) / 2) as usize;
        let methods: usize = suites + 2 + 2 * n_suites;
        if n < methods + 1 {
            return Err(HelloError::UnexpectedEof);
        }
        client_hello.cipher_suites = read_suites(bytes, suites + 2, n_suites);
        let n_methods: usize = bytes[methods] as usize;
        let extensions: usize = methods + 1 + n_methods;
        if n < extensions + 2 {
            return Err(HelloError::UnexpectedEof);
        }
        client_hello.compression_methods = read_methods(bytes, methods + 1, n_methods);
        let extensions_length: u16 = read_u16_be(bytes, extensions);
        match read_extensions(bytes, extensions + 2, extensions_length) {
            Some(v) => {
                client_hello.extensions = v;
                assert(client_hello@ =~= hello_of(bytes@)->Ok_0);
                Ok(client_hello)
            },
            None => Err(HelloError::UnexpectedEof),
        }
    }
}

proof fn lemma_extensions_ignore_the_rest(s: Seq<u8>, t: Seq<u8>, at: int, left: int)
    requires
        0 <= at,
        extensions_at(s, at, left) is Some,
    ensures
        extensions_at(s + t, at, left) == extensions_at(s, at, left),
    decreases s.len() - at,
{
    if left != 0 {
        let len = codec::be16_at(s, at + 2);
        lemma_extensions_ignore_the_rest(s, t, at + 4 + len, left - 4 - len);
        assert((s + t).subrange(at + 4, at + 4 + len) =~= s.subrange(at + 4, at + 4 + len));
    }
}

/// Bytes that follow a complete message change nothing.
pub proof fn what_follows_is_ignored(s: Seq<u8>, t: Seq<u8>)
    requires
        hello_of(s) is Ok,
    ensures
        hello_of(s + t) == hello_of(s),
{
    let u = s + t;
    let suites = 44 + s[43];
    let n_suites = codec::be16_at(s, suites) / 2;
    let methods = suites + 2 + 2 * n_suites;
    let n_methods = s[methods];
    let extensions = methods + 1 + n_methods;
    let left = codec::be16_at(s, extensions) as int;
    lemma_extensions_ignore_the_rest(s, t, extensions + 2, left);
    assert(u.subrange(15, 43) =~= s.subrange(15, 43));
    assert(u.subrange(44, suites) =~= s.subrange(44, suites));
    assert(suites_at(u, suites + 2, n_suites as nat) =~= suites_at(
        s,
        suites + 2,
        n_suites as nat,
    ));
    assert(methods_at(u, methods + 1, n_methods as nat) =~= methods_at(
        s,
        methods + 1,
        n_methods as nat,
    ));
}

/// How many bytes the message takes up, as its own lengths say.
pub open spec fn hello_len(s: Seq<u8>) -> int {
    let suites = 44 + s[43];
    let methods = suites + 2 + 2 * (codec::be16_at(s, suites) / 2);
    let extensions = methods + 1 + s[methods];
    extensions + 2 + codec::be16_at(s, extensions)
}

/// Extensions that are read make up their bytes exactly, and these are there.
proof fn lemma_extensions_are_there(s: Seq<u8>, at: int, left: int)
    requires
        0 <= at <= s.len(),
        extensions_at(s, at, left) is Some,
    ensures
        0 <= left,
        at + left <= s.len(),
    decreases s.len() - at,
{
    if left != 0 {
        let len = codec::be16_at(s, at + 2);
        lemma_extensions_are_there(s, at + 4 + len, left - 4 - len);
    }
}

proof fn lemma_extensions_of_prefix(s: Seq<u8>, k: int, at: int, left: int)
    requires
        0 <= at <= s.len(),
        extensions_at(s, at, left) is Some,
        at + left <= k <= s.len(),
    ensures
        extensions_at(s.take(k), at, left) == extensions_at(s, at, left),
    decreases s.len() - at,
{
    if left != 0 {
        let len = codec::be16_at(s, at + 2);
        lemma_extensions_are_there(s, at + 4 + len, left - 4 - len);
        lemma_extensions_of_prefix(s, k, at + 4 + len, left - 4 - len);
        assert(s.take(k).subrange(at + 4, at + 4 + len) =~= s.subrange(at + 4, at + 4 + len));
    }
}

/// A message must be given whole: everything short of its length is refused, and from there on
/// the same fields are read.
pub proof fn message_must_be_whole(b: Seq<u8>, k: int)
    requires
        hello_of(b) is Ok,
        0 <= k <= b.len(),
    ensures
        0 < hello_len(b) <= b.len(),
        k < hello_len(b) ==> hello_of(b.take(k)) is Err,
        hello_len(b) <= k ==> hello_of(b.take(k)) == hello_of(b),
{
    let u = b.take(k);
    let suites = 44 + b[43];
    let n_suites = codec::be16_at(b, suites) / 2;
    let methods = suites + 2 + 2 * n_suites;
    let n_methods = b[methods];
    let extensions = methods + 1 + n_methods;
    let left = codec::be16_at(b, extensions) as int;
    lemma_extensions_are_there(b, extensions + 2, left);
    if hello_len(b) <= k {
        lemma_extensions_of_prefix(b, k, extensions + 2, left);
        assert(u.subrange(15, 43) =~= b.subrange(15, 43));
        assert(u.subrange(44, suites) =~= b.subrange(44, suites));
        assert(suites_at(u, suites + 2, n_suites as nat) =~= suites_at(
            b,
            suites + 2,
            n_suites as nat,
        ));
        assert(methods_at(u, methods + 1, n_methods as nat) =~= methods_at(
            b,
            methods + 1,
            n_methods as nat,
        ));
    } else if k >= extensions + 2 {
        if extensions_at(u, extensions + 2, left) is Some {
            lemma_extensions_are_there(u, extensions + 2, left);
        }
    }
}

/// The fields of a message can be written: every part has a length that its own length field
/// holds.
pub open spec fn writable(h: HelloView) -> bool {
    &&& h.random_bytes.len() == 28
    &&& h.session_id.len() < 256
    &&& h.cipher_suites.len() < 32768
    &&& h.compression_methods.len() < 256
    &&& forall|i: int|
        0 <= i < h.extensions.len() ==> (#[trigger] h.extensions[i]).data.len() < 65536
    &&& written_extensions(h.extensions).len() < 65536
}

/// A length or a kind in two bytes, the more significant first.
pub open spec fn two_bytes(n: nat) -> Seq<u8> {
    seq![(n / 256) as u8, (n % 256) as u8]
}

/// The extensions as they are sent: each with its kind and the length of its data before it.
pub open spec fn written_extensions(list: Seq<ExtensionView>) -> Seq<u8>
    decreases list.len(),
{
    if list.len() == 0 {
        Seq::empty()
    } else {
        two_bytes(list[0].kind as nat) + two_bytes(list[0].data.len()) + list[0].data
            + written_extensions(list.skip(1))
    }
}

/// A message as it is sent: the headers of the record and of the handshake, whose versions and
/// lengths are not looked at, and then the fields, each list with its length before it.
pub open spec fn written_hello(version: Seq<u8>, length: Seq<u8>, h: HelloView) -> Seq<u8> {
    let time = h.gmt_unix_time as nat;
    seq![0x16u8] + version + seq![1u8] + length + seq![h.version.major, h.version.minor]
        + two_bytes(time / 65536) + two_bytes(time % 65536) + h.random_bytes + seq![
        h.session_id.len() as u8,
    ] + h.session_id + two_bytes(2 * h.cipher_suites.len()) + Seq::new(
        2 * h.cipher_suites.len(),
        |i: int|
            if i % 2 == 0 {
                h.cipher_suites[i / 2].0
            } else {
                h.cipher_suites[i / 2].1
            },
    ) + seq![h.compression_methods.len() as u8] + Seq::new(
        h.compression_methods.len(),
        |i: int| h.compression_methods[i].0,
    ) + two_bytes(written_extensions(h.extensions).len()) + written_extensions(h.extensions)
}

proof fn lemma_extensions_read_back(s: Seq<u8>, at: int, list: Seq<ExtensionView>, t: Seq<u8>)
    requires
        0 <= at <= s.len(),
        s.skip(at) == written_extensions(list) + t,
        forall|i: int| 0 <= i < list.len() ==> (#[trigger] list[i]).data.len() < 65536,
    ensures
        extensions_at(s, at, written_extensions(list).len() as int) == Some(list),
    decreases list.len(),
{
    let w = written_extensions(list);
    if list.len() == 0 {
        assert(list =~= Seq::empty());
    } else {
        let e = list[0];
        let rest = list.skip(1);
        let n = e.data.len() as int;
        assert(w.len() == 4 + n + written_extensions(rest).len());
        assert(s.skip(at).len() == w.len() + t.len());
        assert(s[at] == s.skip(at)[0] && s[at + 1] == s.skip(at)[1] && s[at + 2] == s.skip(at)[2]
            && s[at + 3] == s.skip(at)[3]);
        assert(codec::be16_at(s, at) == e.kind);
        assert(codec::be16_at(s, at + 2) == n);
        assert(s.subrange(at + 4, at + 4 + n) =~= e.data) by {
            assert forall|i: int| 0 <= i < n implies s[at + 4 + i] == e.data[i] by {
                assert(s[at + 4 + i] == s.skip(at)[4 + i]);
                assert(s.skip(at)[4 + i] == e.data[i]);
            }
        }
        assert(s.skip(at + 4 + n) =~= written_extensions(rest) + t) by {
            assert forall|i: int| 0 <= i < s.len() - at - 4 - n implies s[at + 4 + n + i]
                == (written_extensions(rest) + t)[i] by {
                assert(s.skip(at)[4 + n + i] == (w + t)[4 + n + i]);
            }
        }
        assert forall|i: int| 0 <= i < rest.len() implies (#[trigger] rest[i]).data.len()
            < 65536 by {
            assert(list[i + 1].data.len() < 65536);
        }
        lemma_extensions_read_back(s, at + 4 + n, rest, t);
        assert(seq![e] + rest =~= list);
        assert(e =~= (ExtensionView { kind: codec::be16_at(s, at), data: s.subrange(at + 4, at + 4 + n) }));
    }
}

/// A message that was sent whole is read back field by field, whatever follows it.
pub proof fn written_hello_reads_back(version: Seq<u8>, length: Seq<u8>, h: HelloView, t: Seq<u8>)
    requires
        version.len() == 4,
        length.len() == 3,
        writable(h),
    ensures
        hello_of(written_hello(version, length, h) + t) == Ok::<HelloView, HelloError>(h),
{
    let time = h.gmt_unix_time as nat;
    let ns = h.cipher_suites.len();
    let nm = h.compression_methods.len();
    let w = written_extensions(h.extensions);
    let suites = Seq::new(
        2 * ns,
        |i: int|
            if i % 2 == 0 {
                h.cipher_suites[i / 2].0
            } else {
                h.cipher_suites[i / 2].1
            },
    );
    let methods = Seq::new(nm, |i: int| h.compression_methods[i].0);
    let s = written_hello(version, length, h) + t;
    let a = seq![0x16u8] + version + seq![1u8] + length + seq![h.version.major, h.version.minor]
        + two_bytes(time / 65536) + two_bytes(time % 65536);
    let b = a + h.random_bytes + seq![h.session_id.len() as u8];
    let c = b + h.session_id;
    let d = c + two_bytes(2 * ns) + suites;
    let e = d + seq![nm as u8] + methods;
    let f = e + two_bytes(w.len());
    assert(a.len() == 15);
    assert(b.len() == 44);
    let ps = 44 + h.session_id.len() as int;
    let pm = ps + 2 + 2 * ns;
    let pe = pm + 1 + nm;
    assert(c.len() == ps && d.len() == pm && e.len() == pe && f.len() == pe + 2);
    assert(s =~= f + w + t);
    assert(s.take(15) =~= a);
    assert(s[0] == a[0] && s[5] == a[5] && s[9] == a[9] && s[10] == a[10] && s[11] == a[11] && s[12]
        == a[12] && s[13] == a[13] && s[14] == a[14]);
    assert(codec::be32_at(s, 11) == h.gmt_unix_time) by {
        assert(a[11] == (time / 65536 / 256) as u8);
        assert(a[12] == (time / 65536 % 256) as u8);
        assert(a[13] == (time % 65536 / 256) as u8);
        assert(a[14] == (time % 65536 % 256) as u8);
    }
    assert(s.subrange(15, 43) =~= h.random_bytes);
    assert(s[43] == h.session_id.len());
    assert(s.subrange(44, ps) =~= h.session_id);
    assert(s[ps] == two_bytes(2 * ns)[0] && s[ps + 1] == two_bytes(2 * ns)[1]);
    assert(codec::be16_at(s, ps) == 2 * ns);
    assert(suites_at(s, ps + 2, ns) =~= h.cipher_suites) by {
        assert forall|i: int| 0 <= i < ns implies suites_at(s, ps + 2, ns)[i]
            == h.cipher_suites[i] by {
            assert(s[ps + 2 + 2 * i] == suites[2 * i]);
            assert(s[ps + 2 + 2 * i + 1] == suites[2 * i + 1]);
        }
    }
    assert(s[pm] == nm as u8);
    assert(methods_at(s, pm + 1, nm) =~= h.compression_methods) by {
        assert forall|i: int| 0 <= i < nm implies methods_at(s, pm + 1, nm)[i]
            == h.compression_methods[i] by {
            assert(s[pm + 1 + i] == methods[i]);
        }
    }
    assert(s[pe] == two_bytes(w.len())[0] && s[pe + 1] == two_bytes(w.len())[1]);
    assert(codec::be16_at(s, pe) == w.len());
    assert(s.skip(pe + 2) =~= w + t);
    lemma_extensions_read_back(s, pe + 2, h.extensions, t);
    let r = hello_of(s)->Ok_0;
    assert(r =~= h);
}

/// What is no first message of a client is told by its first bytes: it is no handshake, or one of
/// another kind; and a message that ends before its session id is cut off.
pub proof fn other_messages_are_refused(s: Seq<u8>)
    ensures
        s.len() == 0 ==> hello_of(s) == Err::<HelloView, HelloError>(HelloError::UnexpectedEof),
        s.len() > 0 && s[0] != 0x16 ==> hello_of(s) == Err::<HelloView, HelloError>(
            HelloError::BadContentType,
        ),
        s.len() >= 6 && s[0] == 0x16 && s[5] != 1 ==> hello_of(s) == Err::<HelloView, HelloError>(
            HelloError::WrongHandshakeType,
        ),
        0 < s.len() < 6 && s[0] == 0x16 ==> hello_of(s) == Err::<HelloView, HelloError>(
            HelloError::UnexpectedEof,
        ),
        6 <= s.len() < 44 && s[0] == 0x16 && s[5] == 1 ==> hello_of(s) == Err::<
            HelloView,
            HelloError,
        >(HelloError::UnexpectedEof),
{
}

} // verus!
