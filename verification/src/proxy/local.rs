//! Which protocol a local connection speaks.

use vstd::prelude::*;
use crate::proxy::tls::valid_tls_version;

verus! {

/// What is known of a local connection.
pub struct LocalContext {
    /// Where a redirected connection was going to.
    pub origin_dst: Option<String>,
    pub is_https: bool,
    pub is_socks: bool,
    pub target: Option<String>,
    pub default_port: u16,
    /// Connections are redirected here without the client's knowledge.
    pub transparent: bool,
}

impl Default for LocalContext {
    fn default() -> (r: LocalContext)
        ensures
            r == (LocalContext {
                origin_dst: None,
                is_https: false,
                is_socks: false,
                target: None,
                default_port: 0,
                transparent: false,
            }),
    {
        LocalContext {
            origin_dst: None,
            is_https: false,
            is_socks: false,
            target: None,
            default_port: 0,
            transparent: false,
        }
    }
}

impl LocalContext {
    pub fn is_transparent(&self) -> (r: bool)
        ensures
            r == self.transparent,
    {
        self.transparent
    }
}

/// What to do with a local connection.
#[derive(Debug, PartialEq, Eq, Structural, Clone, Copy)]
pub enum Protocol {
    Socks5,
    /// "unimplemented"
    Socks4,
    /// Find the server's name in the handshake.
    Tls,
    /// An HTTP proxy request; `CONNECT` stands for a TLS connection.
    Http { is_https: bool },
    /// Unknown traffic to a known destination.
    Origin,
    /// "unsupported traffic"
    Unsupported,
}

/// The byte in upper case, where it is an ASCII letter.
pub open spec fn upper(b: u8) -> u8 {
    if 0x61 <= b <= 0x7a {
        (b - 32) as u8
    } else {
        b
    }
}

/// The three bytes, in any case, are these three letters.
pub open spec fn spells(data: Seq<u8>, a: char, b: char, c: char) -> bool {
    &&& upper(data[0]) == a as u8
    &&& upper(data[1]) == b as u8
    &&& upper(data[2]) == c as u8
}

/// The three bytes start an HTTP method.
pub open spec fn starts_method(data: Seq<u8>) -> bool {
    ||| spells(data, 'G', 'E', 'T')
    ||| spells(data, 'P', 'U', 'T')
    ||| spells(data, 'P', 'O', 'S')
    ||| spells(data, 'D', 'E', 'L')
    ||| spells(data, 'O', 'P', 'T')
    ||| spells(data, 'T', 'R', 'A')
    ||| spells(data, 'P', 'A', 'T')
    ||| spells(data, 'H', 'E', 'A')
    ||| spells(data, 'C', 'O', 'N')
}

/// The protocol that the first three bytes stand for.
pub open spec fn protocol_of(data: Seq<u8>, has_origin: bool) -> Protocol {
    if data[0] == 5 {
        Protocol::Socks5
    } else if data[0] == 4 {
        Protocol::Socks4
    } else if data[0] == 0x16 && data[1] >= 3 {
        Protocol::Tls
    } else if starts_method(data) {
        Protocol::Http { is_https: spells(data, 'C', 'O', 'N') }
    } else if has_origin {
        Protocol::Origin
    } else {
        Protocol::Unsupported
    }
}

fn upper_byte(b: u8) -> (r: u8)
    ensures
        r == upper(b),
{
    if 0x61 <= b && b <= 0x7a {
        b - 32
    } else {
        b
    }
}

fn spelled(data: &[u8], a: u8, b: u8, c: u8) -> (r: bool)
    requires
        data@.len() >= 3,
    ensures
        r == (upper(data@[0]) == a && upper(data@[1]) == b && upper(data@[2]) == c),
{
    upper_byte(data[0]) == a && upper_byte(data[1]) == b && upper_byte(data[2]) == c
}

/// Tells the protocol from the first three bytes of a connection, and from whether it is known
/// where the connection was going to.
pub fn detect_protocol(data: &[u8], has_origin: bool) -> (r: Protocol)
    requires
        data@.len() == 3,
    ensures
        r == protocol_of(data@, has_origin),
{
    if data[0] == 5 {
        return Protocol::Socks5;
    }
    if data[0] == 4 {
        return Protocol::Socks4;
    }
    if valid_tls_version(data) {
        return Protocol::Tls;
    }
    if spelled(data, 0x43, 0x4f, 0x4e) {
        return Protocol::Http { is_https: true };
    }
    if spelled(data, 0x47, 0x45, 0x54) || spelled(data, 0x50, 0x55, 0x54) || spelled(
        data,
        0x50,
        0x4f,
        0x53,
    ) || spelled(data, 0x44, 0x45, 0x4c) || spelled(data, 0x4f, 0x50, 0x54) || spelled(
        data,
        0x54,
        0x52,
        0x41,
    ) || spelled(data, 0x50, 0x41, 0x54) || spelled(data, 0x48, 0x45, 0x41) {
        return Protocol::Http { is_https: false };
    }
    if has_origin {
        Protocol::Origin
    } else {
        Protocol::Unsupported
    }
}

/// The byte is this letter, in either case.
pub open spec fn is_letter(b: u8, capital: u8) -> bool {
    b == capital || b == capital + 32
}

/// The three bytes are the start of this name, in any mixture of cases.
pub open spec fn begins(data: Seq<u8>, name: Seq<u8>) -> bool {
    is_letter(data[0], name[0]) && is_letter(data[1], name[1]) && is_letter(data[2], name[2])
}

/// The first bytes of every HTTP method, in any case, are told as HTTP, and as a request for a
/// tunnel exactly where the method is `CONNECT`; no other letters are.
pub proof fn methods_are_told_as_http(data: Seq<u8>, has_origin: bool)
    requires
        data.len() == 3,
    ensures
        begins(data, seq![0x47u8, 0x45, 0x54]) ==> protocol_of(data, has_origin)
            == (Protocol::Http { is_https: false }),
        begins(data, seq![0x50u8, 0x55, 0x54]) ==> protocol_of(data, has_origin)
            == (Protocol::Http { is_https: false }),
        begins(data, seq![0x50u8, 0x4f, 0x53, 0x54]) ==> protocol_of(data, has_origin)
            == (Protocol::Http { is_https: false }),
        begins(data, seq![0x44u8, 0x45, 0x4c, 0x45, 0x54, 0x45]) ==> protocol_of(data, has_origin)
            == (Protocol::Http { is_https: false }),
        begins(data, seq![0x4fu8, 0x50, 0x54, 0x49, 0x4f, 0x4e, 0x53]) ==> protocol_of(
            data,
            has_origin,
        ) == (Protocol::Http { is_https: false }),
        begins(data, seq![0x54u8, 0x52, 0x41, 0x43, 0x45]) ==> protocol_of(data, has_origin)
            == (Protocol::Http { is_https: false }),
        begins(data, seq![0x50u8, 0x41, 0x54, 0x43, 0x48]) ==> protocol_of(data, has_origin)
            == (Protocol::Http { is_https: false }),
        begins(data, seq![0x48u8, 0x45, 0x41, 0x44]) ==> protocol_of(data, has_origin)
            == (Protocol::Http { is_https: false }),
        begins(data, seq![0x43u8, 0x4f, 0x4e, 0x4e, 0x45, 0x43, 0x54]) ==> protocol_of(
            data,
            has_origin,
        ) == (Protocol::Http { is_https: true }),
        protocol_of(data, has_origin) is Http ==> {
            ||| begins(data, seq![0x47u8, 0x45, 0x54])
            ||| begins(data, seq![0x50u8, 0x55, 0x54])
            ||| begins(data, seq![0x50u8, 0x4f, 0x53])
            ||| begins(data, seq![0x44u8, 0x45, 0x4c])
            ||| begins(data, seq![0x4fu8, 0x50, 0x54])
            ||| begins(data, seq![0x54u8, 0x52, 0x41])
            ||| begins(data, seq![0x50u8, 0x41, 0x54])
            ||| begins(data, seq![0x48u8, 0x45, 0x41])
            ||| begins(data, seq![0x43u8, 0x4f, 0x4e])
        },
{
}

/// The first byte tells the two versions of SOCKS, and with the second a TLS handshake of a
/// version from 3 on, whatever follows; what is neither these nor HTTP goes where it was going
/// to, where that is known, and is turned away else.
pub proof fn other_protocols_are_told_apart(data: Seq<u8>, has_origin: bool)
    requires
        data.len() == 3,
    ensures
        data[0] == 5 <==> protocol_of(data, has_origin) is Socks5,
        data[0] == 4 <==> protocol_of(data, has_origin) is Socks4,
        data[0] == 22 && data[1] >= 3 <==> protocol_of(data, has_origin) is Tls,
        protocol_of(data, has_origin) is Origin ==> has_origin,
        protocol_of(data, has_origin) is Unsupported ==> !has_origin,
        protocol_of(data, true) is Origin <==> protocol_of(data, false) is Unsupported,
        !(protocol_of(data, true) is Origin) ==> protocol_of(data, true) == protocol_of(
            data,
            false,
        ),
{
}

} // verus!
