//! Addresses.

use std::borrow::Cow;
use url::Url;
use vstd::prelude::*;
use crate::text;
use crate::common::http;
use crate::common::http::{is_ok_response, MAX_HEADERS};
use crate::text::{decimal, chars_of, same_text};

verus! {

/// A pair of a query: whether its name stands in the address as it is, the name and the value.
pub type QueryPair = (bool, String, String);

/// The parts of an address that matter here.
pub struct UrlParts {
    /// The address as it is written in full.
    pub text: String,
    pub scheme: String,
    pub host: Option<String>,
    /// The port, where it is not the scheme's own.
    pub port: Option<u16>,
    pub query: Vec<QueryPair>,
}

/// What the parts of an address say.
#[verifier::ext_equal]
pub struct PartsView {
    pub text: Seq<char>,
    pub scheme: Seq<char>,
    pub host: Option<Seq<char>>,
    pub port: Option<u16>,
    pub query: Seq<(bool, Seq<char>, Seq<char>)>,
}

impl View for UrlParts {
    type V = PartsView;

    open spec fn view(&self) -> PartsView {
        PartsView {
            text: self.text@,
            scheme: self.scheme@,
            host: match self.host {
                Some(h) => Some(h@),
                None => None,
            },
            port: self.port,
            query: Seq::new(
                self.query@.len(),
                |i: int| (self.query@[i].0, self.query@[i].1@, self.query@[i].2@),
            ),
        }
    }
}

/// What `Url::parse` makes of a text; `None` where it fails.
pub uninterp spec fn url_parts(s: Seq<char>) -> Option<PartsView>;

/// `Url::parse` with `Url::as_str`, `Url::scheme`, `Url::host_str`, `Url::port` and
/// `Url::query_pairs`: a function of the text. The flag of a pair tells whether its name is
/// borrowed from the address.
#[verifier::external_body]
pub(crate) fn parse_url(s: &str) -> (r: Option<UrlParts>)
    ensures
        match r {
            Some(p) => url_parts(s@) == Some(p@),
            None => url_parts(s@) is None,
        },
{
    let url = Url::parse(s).ok()?;
    Some(UrlParts {
        text: url.as_str().to_string(),
        scheme: url.scheme().to_string(),
        host: url.host_str().map(String::from),
        port: url.port(),
        query: url
            .query_pairs()
            .map(|(k, v)| (matches!(k, Cow::Borrowed(_)), k.into_owned(), v.into_owned()))
            .collect(),
    })
}

/// The port of a scheme, where the address names none.
pub open spec fn default_port(scheme: Seq<char>) -> Seq<char> {
    if scheme == "http"@ {
        "80"@
    } else if scheme == "https"@ {
        "443"@
    } else if scheme == "tcp"@ {
        "48100"@
    } else if scheme == "tls"@ {
        "443"@
    } else {
        "48100"@
    }
}

/// Host and port of an address.
pub open spec fn hostport(p: PartsView) -> Option<Seq<char>> {
    match p.host {
        Some(host) => Some(
            host + ":"@ + match p.port {
                Some(port) => text::digits(port as nat),
                None => default_port(p.scheme),
            },
        ),
        None => None,
    }
}

/// Host and port of an address; `None` where it has no host.
pub fn get_hostport_from_url(url: &UrlParts) -> (r: Option<String>)
    ensures
        match r {
            Some(s) => hostport(url@) == Some(s@),
            None => hostport(url@) is None,
        },
{
    let mut out: String = String::new();
    match &url.host {
        Some(host) => {
            out.push_str(host.as_str());
        },
        None => {
            return None;
        },
    }
    assert(out@ =~= url.host->Some_0@);
    out.push_str(":");
    match url.port {
        Some(port) => {
            out.push_str(decimal(port as u64).as_str());
        },
        None => {
            let scheme = url.scheme.as_str();
            if same_text(scheme, "http") {
                out.push_str("80");
            } else if same_text(scheme, "https") {
                out.push_str("443");
            } else if same_text(scheme, "tcp") {
                out.push_str("48100");
            } else if same_text(scheme, "tls") {
                out.push_str("443");
            } else {
                out.push_str("48100");
            }
        },
    }
    Some(out)
}

/// Host and port of an address that is still a text; `None` where it is no address or has no
/// host.
pub fn get_hostport(url: &str) -> (r: Option<String>)
    ensures
        match url_parts(url@) {
            Some(p) => match r {
                Some(s) => hostport(p) == Some(s@),
                None => hostport(p) is None,
            },
            None => r is None,
        },
{
    match parse_url(url) {
        Some(p) => get_hostport_from_url(&p),
        None => None,
    }
}

/// An address to listen on: without a host, all interfaces are meant.
pub fn get_listen_addr(addr: &str) -> (r: String)
    requires
        addr@.len() > 0,
    ensures
        r@ == if addr@[0] == ':' {
            "0.0.0.0"@ + addr@
        } else {
            addr@
        },
{
    let v = chars_of(addr);
    if v[0] == ':' {
        let mut laddr: String = "0.0.0.0".to_owned();
        laddr.push_str(addr);
        laddr
    } else {
        addr.to_owned()
    }
}

/// The first port from 1025 up to 65534 that the probe finds free, or zero.
pub fn get_available_udp_port<F: Fn(u16) -> bool>(is_available: F) -> (r: u16)
    requires
        forall|port: u16| 1025 <= port < 65535 ==> #[trigger] is_available.requires((port,)),
    ensures
        r == 0 ==> forall|port: u16|
            1025 <= port < 65535 ==> #[trigger] is_available.ensures((port,), false),
        r != 0 ==> {
            &&& 1025 <= r < 65535
            &&& is_available.ensures((r,), true)
            &&& forall|port: u16|
                1025 <= port < r ==> #[trigger] is_available.ensures((port,), false)
        },
{
    let mut port: u16 = 1025;
    while port < 65535
        invariant
            1025 <= port <= 65535,
            forall|p: u16| 1025 <= p < 65535 ==> #[trigger] is_available.requires((p,)),
            forall|p: u16| 1025 <= p < port ==> #[trigger] is_available.ensures((p,), false),
        decreases 65535 - port,
    {
        if is_available(port) {
            return port;
        }
        port += 1;
    }
    0
}

/// The request that asks an HTTP proxy for a connection to `remote`.
pub open spec fn connect_text(remote: Seq<char>) -> Seq<char> {
    "CONNECT "@ + remote + " HTTP/1.1\r\nHost: "@ + remote
        + "\r\nConnection: keep-alive\r\nProxy-Connection: keep-alive\r\n\r\n"@
}

/// The bytes that ask an HTTP proxy for a connection to `remote`.
pub fn connect_request(remote: &str) -> (r: Vec<u8>)
    ensures
        r@ == http::utf8(connect_text(remote@)),
{
    let mut s: String = "CONNECT ".to_owned();
    s.push_str(remote);
    s.push_str(" HTTP/1.1\r\nHost: ");
    s.push_str(remote);
    s.push_str("\r\nConnection: keep-alive\r\nProxy-Connection: keep-alive\r\n\r\n");
    vstd::slice::slice_to_vec(s.as_str().as_bytes())
}

/// Whether the proxy granted the connection: its answer decides.
pub fn connect_granted(answer: &[u8]) -> (r: bool)
    ensures
        r == http::is_ok_code(http::http_status(answer@, MAX_HEADERS)),
{
    is_ok_response(answer)
}

/// An address is its host, a colon and a port: the one that it names, or that of its scheme. One
/// without a host is none.
pub proof fn address_has_host_and_port(p: PartsView)
    ensures
        hostport(p) is Some <==> p.host is Some,
        p.host is Some ==> {
            let a = hostport(p)->Some_0;
            let host = p.host->Some_0;
            &&& a.len() > host.len() + 1
            &&& a.take(host.len() as int) == host
            &&& a[host.len() as int] == ':'
            &&& text::number_of(a.skip(host.len() as int + 1), 65535) == Some(
                match p.port {
                    Some(port) => port as nat,
                    None => if p.scheme == seq!['h', 't', 't', 'p'] {
                        80
                    } else if p.scheme == seq!['h', 't', 't', 'p', 's'] || p.scheme == seq![
                        't',
                        'l',
                        's',
                    ] {
                        443
                    } else {
                        48100
                    },
                },
            )
        },
{
    reveal_strlit("http");
    reveal_strlit("https");
    reveal_strlit("tls");
    reveal_strlit("tcp");
    reveal_strlit(":");
    assert("http"@ =~= seq!['h', 't', 't', 'p']);
    assert("https"@ =~= seq!['h', 't', 't', 'p', 's']);
    assert("tls"@ =~= seq!['t', 'l', 's']);
    assert("tcp"@ =~= seq!['t', 'c', 'p']);
    assert("tcp"@[1] == 'c');
    lemma_port_numbers();
    if p.host is Some {
        let host = p.host->Some_0;
        let a = hostport(p)->Some_0;
        let port = match p.port {
            Some(port) => text::digits(port as nat),
            None => default_port(p.scheme),
        };
        assert(a =~= host + ":"@ + port);
        assert(a.take(host.len() as int) =~= host);
        assert(a.skip(host.len() as int + 1) =~= port);
        match p.port {
            Some(n) => {
                text::numbers_are_read_up_to_the_largest(n as nat, 65535);
                text::decimal_reads_back(n as nat);
            },
            None => {},
        }
    }
}

proof fn lemma_port_numbers()
    ensures
        text::number_of("80"@, 65535) == Some(80nat),
        text::number_of("443"@, 65535) == Some(443nat),
        text::number_of("48100"@, 65535) == Some(48100nat),
        "80"@.len() == 2,
        "443"@.len() == 3,
        "48100"@.len() == 5,
{
    reveal_strlit("80");
    reveal_strlit("443");
    reveal_strlit("48100");
    reveal_with_fuel(text::digits, 6);
    assert("80"@ =~= text::digits(80));
    assert("443"@ =~= text::digits(443));
    assert("48100"@ =~= text::digits(48100));
    text::numbers_are_read_up_to_the_largest(80, 65535);
    text::numbers_are_read_up_to_the_largest(443, 65535);
    text::numbers_are_read_up_to_the_largest(48100, 65535);
}

/// The request that asks a proxy for a connection names the remote in its first line and in its
/// `Host` header, and ends with an empty line.
pub proof fn connection_is_asked_for(remote: Seq<char>)
    ensures
        ({
            let s = connect_text(remote);
            let first = seq!['C', 'O', 'N', 'N', 'E', 'C', 'T', ' '] + remote + seq![
                ' ',
                'H',
                'T',
                'T',
                'P',
                '/',
                '1',
                '.',
                '1',
                '\r',
                '\n',
            ];
            let second = seq!['H', 'o', 's', 't', ':', ' '] + remote + seq!['\r', '\n'];
            &&& s.len() > first.len() + second.len() + 4
            &&& s.take((first.len() + second.len()) as int) == first + second
            &&& s.skip(s.len() - 4) == seq!['\r', '\n', '\r', '\n']
        }),
{
    reveal_strlit("CONNECT ");
    reveal_strlit(" HTTP/1.1\r\nHost: ");
    reveal_strlit("\r\nConnection: keep-alive\r\nProxy-Connection: keep-alive\r\n\r\n");
    let s = connect_text(remote);
    let first = seq!['C', 'O', 'N', 'N', 'E', 'C', 'T', ' '] + remote + seq![
        ' ',
        'H',
        'T',
        'T',
        'P',
        '/',
        '1',
        '.',
        '1',
        '\r',
        '\n',
    ];
    let second = seq!['H', 'o', 's', 't', ':', ' '] + remote + seq!['\r', '\n'];
    assert(s.take((first.len() + second.len()) as int) =~= first + second);
    assert(s.skip(s.len() - 4) =~= seq!['\r', '\n', '\r', '\n']);
}

} // verus!
