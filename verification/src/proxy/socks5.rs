//! The server side of the SOCKS5 handshake.

use vstd::prelude::*;
use crate::codec;
use crate::codec::read_u16_be;
use crate::common::io::{HostPort, HostPortView};
use crate::common::ip;
use crate::common::ip::{parse_v4, parse_v6};
use crate::text::from_utf8;

verus! {

pub const VERSION: u8 = 5;

pub const METH_NO_AUTH: u8 = 0;

pub const METH_GSSAPI: u8 = 1;

pub const METH_USER_PASS: u8 = 2;

pub const CMD_CONNECT: u8 = 1;

pub const CMD_BIND: u8 = 2;

pub const CMD_UDP_ASSOCIATE: u8 = 3;

pub const ATYP_IPV4: u8 = 1;

pub const ATYP_IPV6: u8 = 4;

pub const ATYP_DOMAIN: u8 = 3;

pub const SOCKS_RESP_SUUCESS: u8 = 0;

/// "general SOCKS server failure"
pub const SOCKS_RESP_FAILURE: u8 = 1;

/// Why a handshake fails.
#[derive(Debug, PartialEq, Eq, Structural, Clone, Copy)]
pub enum SocksError {
    /// "no supported method given"
    NoMethod,
    /// "didn't confirm with v5 version"
    Version,
    /// "unsupported command"
    Command,
    /// "unknown ATYP received"
    AddressType(u8),
    /// "hostname buffer provided was not valid utf-8"
    HostName,
}

/// How far the handshake is: what is read next. The version byte that opens it is through.
#[derive(Debug, PartialEq, Eq, Structural, Clone, Copy)]
pub enum SocksState {
    NumMethods,
    Methods(u8),
    Version,
    Command,
    Reserved,
    AddressType,
    Ipv4,
    Ipv6,
    DomainLen,
    Domain(u8),
}

/// What a step of the handshake comes to.
pub enum SocksStep {
    /// Go on with the next state.
    Next(SocksState),
    /// Send these bytes, then go on.
    Reply(Vec<u8>, SocksState),
    /// The client wants to reach this destination: connect to it, then send what
    /// `connect_reply` gives for the outcome.
    Connect(HostPort),
    Failed(SocksError),
}

/// What a step of the handshake says.
pub enum SocksStepView {
    Next(SocksState),
    Reply(Seq<u8>, SocksState),
    Connect(HostPortView),
    Failed(SocksError),
}

impl View for SocksStep {
    type V = SocksStepView;

    open spec fn view(&self) -> SocksStepView {
        match *self {
            SocksStep::Next(s) => SocksStepView::Next(s),
            SocksStep::Reply(b, s) => SocksStepView::Reply(b@, s),
            SocksStep::Connect(h) => SocksStepView::Connect(h@),
            SocksStep::Failed(e) => SocksStepView::Failed(e),
        }
    }
}

impl SocksState {
    /// The bytes that the state reads.
    pub open spec fn needs(self) -> nat {
        match self {
            SocksState::Methods(n) => n as nat,
            SocksState::Ipv4 => 6,
            SocksState::Ipv6 => 18,
            SocksState::Domain(n) => (n + 2) as nat,
            _ => 1,
        }
    }
}

/// The answer to a request for a connection: whether the destination was reached, and an IPv4
/// address of zeros.
pub open spec fn reply_for(connected: bool) -> Seq<u8> {
    if connected {
        seq![5u8, 0, 0, 1, 0, 0, 0, 0, 0, 0]
    } else {
        seq![5u8, 1, 0, 1, 0, 0, 0, 0, 0, 0]
    }
}

/// The groups of an IPv6 address.
pub open spec fn groups(b: Seq<u8>) -> Seq<u16> {
    Seq::new(8, |i: int| codec::be16_at(b, 2 * i))
}

/// The destination that a name and a port stand for: an IP address, where the name is one.
pub open spec fn destination(name: Seq<char>, port: u16) -> HostPortView {
    match ip::v4_of(name) {
        Some(octets) => HostPortView::V4(octets, port),
        None => match ip::v6_of(name) {
            Some(groups) => HostPortView::V6(groups, port),
            None => HostPortView::Domain(name, port),
        },
    }
}

/// The name and port in a domain address: the last two bytes are the port.
pub open spec fn name_port_of(b: Seq<u8>) -> Option<HostPortView> {
    let name = b.take(b.len() - 2);
    if vstd::utf8::valid_utf8(name) {
        Some(destination(vstd::utf8::decode_utf8(name), codec::be16_at(b, b.len() - 2)))
    } else {
        None
    }
}

/// What the state makes of the bytes that it reads.
pub open spec fn handshake(state: SocksState, b: Seq<u8>) -> SocksStepView {
    match state {
        SocksState::NumMethods => SocksStepView::Next(SocksState::Methods(b[0])),
        SocksState::Methods(_) => if b.contains(METH_NO_AUTH) {
            SocksStepView::Reply(seq![VERSION, METH_NO_AUTH], SocksState::Version)
        } else {
            SocksStepView::Failed(SocksError::NoMethod)
        },
        SocksState::Version => if b[0] == VERSION {
            SocksStepView::Next(SocksState::Command)
        } else {
            SocksStepView::Failed(SocksError::Version)
        },
        SocksState::Command => if b[0] == CMD_CONNECT {
            SocksStepView::Next(SocksState::Reserved)
        } else {
            SocksStepView::Failed(SocksError::Command)
        },
        SocksState::Reserved => SocksStepView::Next(SocksState::AddressType),
        SocksState::AddressType => if b[0] == ATYP_IPV4 {
            SocksStepView::Next(SocksState::Ipv4)
        } else if b[0] == ATYP_IPV6 {
            SocksStepView::Next(SocksState::Ipv6)
        } else if b[0] == ATYP_DOMAIN {
            SocksStepView::Next(SocksState::DomainLen)
        } else {
            SocksStepView::Failed(SocksError::AddressType(b[0]))
        },
        SocksState::Ipv4 => SocksStepView::Connect(HostPortView::V4(b.take(4), codec::be16_at(b, 4))),
        SocksState::Ipv6 => SocksStepView::Connect(HostPortView::V6(groups(b), codec::be16_at(b, 16))),
        SocksState::DomainLen => SocksStepView::Next(SocksState::Domain(b[0])),
        SocksState::Domain(_) => match name_port_of(b) {
            Some(h) => SocksStepView::Connect(h),
            None => SocksStepView::Failed(SocksError::HostName),
        },
    }
}

fn offers_no_auth(b: &[u8]) -> (r: bool)
    ensures
        r == b@.contains(METH_NO_AUTH),
{
    let mut i: usize = 0;
    while i < b.len()
        invariant
            i <= b@.len(),
            forall|j: int| 0 <= j < i ==> b@[j] != METH_NO_AUTH,
        decreases b@.len() - i,
    {
        if b[i] == METH_NO_AUTH {
            assert(b@[i as int] == METH_NO_AUTH);
            return true;
        }
        i += 1;
    }
    false
}

/// The name and port in a domain address: the last two bytes are the port. A name that is the
/// text of an IP address gives that address.
pub fn name_port(addr_buf: &[u8]) -> (r: Result<HostPort, SocksError>)
    requires
        addr_buf@.len() >= 2,
    ensures
        match name_port_of(addr_buf@) {
            Some(h) => r is Ok && r->Ok_0@ == h,
            None => r is Err && r->Err_0 == SocksError::HostName,
        },
{
    let pos: usize = addr_buf.len() - 2;
    let name = vstd::slice::slice_to_vec(vstd::slice::slice_subrange(addr_buf, 0, pos));
    assert(name@ =~= addr_buf@.take(addr_buf@.len() - 2));
    let hostname = match from_utf8(name) {
        Some(hostname) => hostname,
        None => {
            return Err(SocksError::HostName);
        },
    };
    let port: u16 = read_u16_be(addr_buf, pos);
    if let Some(octets) = parse_v4(hostname.as_str()) {
        return Ok(HostPort::V4Port(octets, port));
    }
    if let Some(groups) = parse_v6(hostname.as_str()) {
        return Ok(HostPort::V6Port(groups, port));
    }
    Ok(HostPort::DomainPort(hostname, port))
}

/// The answer to a request for a connection, once it is known whether the destination was
/// reached.
pub fn connect_reply(connected: bool) -> (r: Vec<u8>)
    ensures
        r@ == if connected {
            seq![5u8, 0, 0, 1, 0, 0, 0, 0, 0, 0]
        } else {
            seq![5u8, 1, 0, 1, 0, 0, 0, 0, 0, 0]
        },
        r@ == reply_for(connected),
{
    let mut v: Vec<u8> = Vec::new();
    v.push(VERSION);
    v.push(
        if connected {
            SOCKS_RESP_SUUCESS
        } else {
            SOCKS_RESP_FAILURE
        },
    );
    v.push(0);
    v.push(ATYP_IPV4);
    v.push(0);
    v.push(0);
    v.push(0);
    v.push(0);
    v.push(0);
    v.push(0);
    assert(v@ =~= reply_for(connected));
    v
}

impl SocksState {
    /// The bytes to read for this state.
    pub fn read_len(&self) -> (r: usize)
        ensures
            r == self.needs(),
    {
        match self {
            SocksState::Methods(n) => *n as usize,
            SocksState::Ipv4 => 6,
            SocksState::Ipv6 => 18,
            SocksState::Domain(n) => *n as usize + 2,
            _ => 1,
        }
    }

    /// Acts on the bytes that were read.
    pub fn step(self, b: &[u8]) -> (r: SocksStep)
        requires
            b@.len() == self.needs(),
        ensures
            r@ == handshake(self, b@),
    {
        match self {
            SocksState::NumMethods => SocksStep::Next(SocksState::Methods(b[0])),
            SocksState::Methods(_) => {
                if offers_no_auth(b) {
                    let mut reply: Vec<u8> = Vec::new();
                    reply.push(VERSION);
                    reply.push(METH_NO_AUTH);
                    assert(reply@ =~= seq![VERSION, METH_NO_AUTH]);
                    SocksStep::Reply(reply, SocksState::Version)
                } else {
                    SocksStep::Failed(SocksError::NoMethod)
                }
            },
            SocksState::Version => {
                if b[0] == VERSION {
                    SocksStep::Next(SocksState::Command)
                } else {
                    SocksStep::Failed(SocksError::Version)
                }
            },
            SocksState::Command => {
                if b[0] == CMD_CONNECT {
                    SocksStep::Next(SocksState::Reserved)
                } else {
                    SocksStep::Failed(SocksError::Command)
                }
            },
            SocksState::Reserved => SocksStep::Next(SocksState::AddressType),
            SocksState::AddressType => {
                if b[0] == ATYP_IPV4 {
                    SocksStep::Next(SocksState::Ipv4)
                } else if b[0] == ATYP_IPV6 {
                    SocksStep::Next(SocksState::Ipv6)
                } else if b[0] == ATYP_DOMAIN {
                    SocksStep::Next(SocksState::DomainLen)
                } else {
                    SocksStep::Failed(SocksError::AddressType(b[0]))
                }
            },
            SocksState::Ipv4 => {
                let a: [u8; 4] = [b[0], b[1], b[2], b[3]];
                assert(a@ =~= b@.take(4));
                SocksStep::Connect(HostPort::V4Port(a, read_u16_be(b, 4)))
            },
            SocksState::Ipv6 => {
                let a: [u16; 8] = [
                    read_u16_be(b, 0),
                    read_u16_be(b, 2),
                    read_u16_be(b, 4),
                    read_u16_be(b, 6),
                    read_u16_be(b, 8),
                    read_u16_be(b, 10),
                    read_u16_be(b, 12),
                    read_u16_be(b, 14),
                ];
                assert(a@ =~= groups(b@));
                SocksStep::Connect(HostPort::V6Port(a, read_u16_be(b, 16)))
            },
            SocksState::DomainLen => SocksStep::Next(SocksState::Domain(b[0])),
            SocksState::Domain(_) => {
                match name_port(b) {
                    Ok(h) => SocksStep::Connect(h),
                    Err(e) => SocksStep::Failed(e),
                }
            },
        }
    }
}

/// What a whole handshake comes to, from a state on: the destination, or the error, or `None`
/// where the client's bytes end first.
pub open spec fn conversation(state: SocksState, input: Seq<u8>) -> Option<
    Result<HostPortView, SocksError>,
>
    decreases rank(state),
{
    let n = state.needs() as int;
    if input.len() < n {
        None
    } else {
        match handshake(state, input.take(n)) {
            SocksStepView::Next(s) => if rank(s) < rank(state) {
                conversation(s, input.skip(n))
            } else {
                None
            },
            SocksStepView::Reply(_, s) => if rank(s) < rank(state) {
                conversation(s, input.skip(n))
            } else {
                None
            },
            SocksStepView::Connect(h) => Some(Ok(h)),
            SocksStepView::Failed(e) => Some(Err(e)),
        }
    }
}

/// How many steps are left at most.
pub open spec fn rank(state: SocksState) -> nat {
    match state {
        SocksState::NumMethods => 8,
        SocksState::Methods(_) => 7,
        SocksState::Version => 6,
        SocksState::Command => 5,
        SocksState::Reserved => 4,
        SocksState::AddressType => 3,
        SocksState::DomainLen => 2,
        _ => 1,
    }
}

/// Every step leads on: the handshake ends after at most eight of them.
pub proof fn handshake_ends(state: SocksState, b: Seq<u8>)
    requires
        b.len() == state.needs(),
    ensures
        match handshake(state, b) {
            SocksStepView::Next(s) => rank(s) < rank(state),
            SocksStepView::Reply(_, s) => rank(s) < rank(state),
            _ => true,
        },
{
}

/// What a client is sent in the course of a handshake, from a state on, given whether its
/// destination was reached.
pub open spec fn told(state: SocksState, input: Seq<u8>, connected: bool) -> Seq<u8>
    decreases rank(state),
{
    let n = state.needs() as int;
    if input.len() < n {
        Seq::empty()
    } else {
        match handshake(state, input.take(n)) {
            SocksStepView::Next(s) => if rank(s) < rank(state) {
                told(s, input.skip(n), connected)
            } else {
                Seq::empty()
            },
            SocksStepView::Reply(b, s) => if rank(s) < rank(state) {
                b + told(s, input.skip(n), connected)
            } else {
                b
            },
            SocksStepView::Connect(_) => reply_for(connected),
            SocksStepView::Failed(_) => Seq::empty(),
        }
    }
}

/// No step of the handshake hands out a success reply: the only bytes that a step sends accept
/// the method.
pub proof fn no_step_grants(state: SocksState, b: Seq<u8>)
    requires
        b.len() == state.needs(),
    ensures
        match handshake(state, b) {
            SocksStepView::Reply(sent, _) => sent == seq![VERSION, METH_NO_AUTH] && sent
                != reply_for(true),
            _ => true,
        },
{
    assert(seq![VERSION, METH_NO_AUTH].len() == 2);
    assert(reply_for(true).len() == 10);
}

proof fn lemma_told(state: SocksState, input: Seq<u8>, connected: bool)
    requires
        rank(state) <= rank(SocksState::Version),
        conversation(state, input) is Some,
        conversation(state, input)->Some_0 is Ok,
    ensures
        told(state, input, connected) == reply_for(connected),
    decreases rank(state),
{
    let n = state.needs() as int;
    if let SocksStepView::Next(s) = handshake(state, input.take(n)) {
        lemma_told(s, input.skip(n), connected);
    }
}

/// A client that names a destination is told of success exactly where the destination was
/// reached, and of failure where it was not, after the method was accepted.
pub proof fn outcome_is_told(input: Seq<u8>, connected: bool)
    requires
        conversation(SocksState::NumMethods, input) is Some,
        conversation(SocksState::NumMethods, input)->Some_0 is Ok,
    ensures
        told(SocksState::NumMethods, input, connected) == seq![VERSION, METH_NO_AUTH] + reply_for(
            connected,
        ),
        reply_for(true)[1] == SOCKS_RESP_SUUCESS,
        reply_for(false)[1] != SOCKS_RESP_SUUCESS,
{
    let rest = input.skip(1);
    let state = SocksState::Methods(input.take(1)[0]);
    let n = state.needs() as int;
    assert(conversation(state, rest) == conversation(SocksState::NumMethods, input));
    assert(conversation(SocksState::Version, rest.skip(n)) == conversation(state, rest));
    lemma_told(SocksState::Version, rest.skip(n), connected);
    assert(told(SocksState::NumMethods, input, connected) == told(state, rest, connected));
}

/// A client that offers to do without authentication and asks for a connection to an IPv4
/// address has that address for its destination.
pub proof fn v4_destination_is_read(methods: Seq<u8>, reserved: u8, addr: Seq<u8>, rest: Seq<u8>)
    requires
        methods.len() < 256,
        methods.contains(METH_NO_AUTH),
        addr.len() == 6,
    ensures
        conversation(
            SocksState::NumMethods,
            seq![methods.len() as u8] + methods + seq![VERSION, CMD_CONNECT, reserved, ATYP_IPV4]
                + addr + rest,
        ) == Some(
            Ok::<HostPortView, SocksError>(HostPortView::V4(addr.take(4), codec::be16_at(addr, 4))),
        ),
{
    reveal_with_fuel(conversation, 8);
    let n = methods.len() as int;
    let i0 = seq![methods.len() as u8] + methods + seq![VERSION, CMD_CONNECT, reserved, ATYP_IPV4]
        + addr + rest;
    let i1 = i0.skip(1);
    let i2 = i1.skip(n);
    let i3 = i2.skip(1);
    let i4 = i3.skip(1);
    let i5 = i4.skip(1);
    let i6 = i5.skip(1);
    assert(i0.take(1)[0] == methods.len() as u8);
    assert(i1.take(n) =~= methods);
    assert(i2.take(1)[0] == VERSION);
    assert(i3.take(1)[0] == CMD_CONNECT);
    assert(i5.take(1)[0] == ATYP_IPV4);
    assert(i6.take(6) =~= addr);
}

/// A client that offers to do without authentication and asks for a connection to an IPv6
/// address has that address for its destination.
pub proof fn v6_destination_is_read(methods: Seq<u8>, reserved: u8, addr: Seq<u8>, rest: Seq<u8>)
    requires
        methods.len() < 256,
        methods.contains(METH_NO_AUTH),
        addr.len() == 18,
    ensures
        conversation(
            SocksState::NumMethods,
            seq![methods.len() as u8] + methods + seq![VERSION, CMD_CONNECT, reserved, ATYP_IPV6]
                + addr + rest,
        ) == Some(
            Ok::<HostPortView, SocksError>(HostPortView::V6(groups(addr), codec::be16_at(addr, 16))),
        ),
{
    reveal_with_fuel(conversation, 8);
    let n = methods.len() as int;
    let i0 = seq![methods.len() as u8] + methods + seq![VERSION, CMD_CONNECT, reserved, ATYP_IPV6]
        + addr + rest;
    let i1 = i0.skip(1);
    let i2 = i1.skip(n);
    let i3 = i2.skip(1);
    let i4 = i3.skip(1);
    let i5 = i4.skip(1);
    let i6 = i5.skip(1);
    assert(i0.take(1)[0] == methods.len() as u8);
    assert(i1.take(n) =~= methods);
    assert(i2.take(1)[0] == VERSION);
    assert(i3.take(1)[0] == CMD_CONNECT);
    assert(i5.take(1)[0] == ATYP_IPV6);
    assert(i6.take(18) =~= addr);
}

/// A client that offers to do without authentication and asks for a connection to a host by its
/// name has that host for its destination, where the name is valid UTF-8; else it is refused.
pub proof fn named_destination_is_read(
    methods: Seq<u8>,
    reserved: u8,
    addr: Seq<u8>,
    rest: Seq<u8>,
)
    requires
        methods.len() < 256,
        methods.contains(METH_NO_AUTH),
        2 <= addr.len() < 258,
    ensures
        conversation(
            SocksState::NumMethods,
            seq![methods.len() as u8] + methods + seq![
                VERSION,
                CMD_CONNECT,
                reserved,
                ATYP_DOMAIN,
                (addr.len() - 2) as u8,
            ] + addr + rest,
        ) == Some(
            match name_port_of(addr) {
                Some(h) => Ok(h),
                None => Err::<HostPortView, SocksError>(SocksError::HostName),
            },
        ),
{
    reveal_with_fuel(conversation, 9);
    let n = methods.len() as int;
    let i0 = seq![methods.len() as u8] + methods + seq![
        VERSION,
        CMD_CONNECT,
        reserved,
        ATYP_DOMAIN,
        (addr.len() - 2) as u8,
    ] + addr + rest;
    let i1 = i0.skip(1);
    let i2 = i1.skip(n);
    let i3 = i2.skip(1);
    let i4 = i3.skip(1);
    let i5 = i4.skip(1);
    let i6 = i5.skip(1);
    let i7 = i6.skip(1);
    assert(i0.take(1)[0] == methods.len() as u8);
    assert(i1.take(n) =~= methods);
    assert(i2.take(1)[0] == VERSION);
    assert(i3.take(1)[0] == CMD_CONNECT);
    assert(i5.take(1)[0] == ATYP_DOMAIN);
    assert(i6.take(1)[0] == (addr.len() - 2) as u8);
    assert(i7.take(addr.len() as int) =~= addr);
}

proof fn lemma_after_the_methods(methods: Seq<u8>, rest: Seq<u8>)
    requires
        methods.len() < 256,
    ensures
        conversation(SocksState::NumMethods, seq![methods.len() as u8] + methods + rest)
            == if methods.contains(0u8) {
            conversation(SocksState::Version, rest)
        } else {
            Some(Err::<HostPortView, SocksError>(SocksError::NoMethod))
        },
{
    reveal_with_fuel(conversation, 3);
    let n = methods.len() as int;
    let i0 = seq![methods.len() as u8] + methods + rest;
    let i1 = i0.skip(1);
    assert(i0.take(1)[0] == n as u8);
    assert(i1.take(n) =~= methods);
    assert(i1.skip(n) =~= rest);
}

/// A client that does not offer to do without authentication is refused, and so is one that
/// speaks another version, asks for something else than a connection, or gives its destination in
/// a form that is not known.
pub proof fn other_requests_are_refused(
    methods: Seq<u8>,
    version: u8,
    command: u8,
    reserved: u8,
    kind: u8,
    rest: Seq<u8>,
)
    requires
        methods.len() < 256,
    ensures
        ({
            let input = seq![methods.len() as u8] + methods + (seq![version, command, reserved, kind]
                + rest);
            let r = conversation(SocksState::NumMethods, input);
            &&& !methods.contains(0u8) ==> r == Some(
                Err::<HostPortView, SocksError>(SocksError::NoMethod),
            )
            &&& methods.contains(0u8) && version != 5 ==> r == Some(
                Err::<HostPortView, SocksError>(SocksError::Version),
            )
            &&& methods.contains(0u8) && version == 5 && command != 1 ==> r == Some(
                Err::<HostPortView, SocksError>(SocksError::Command),
            )
            &&& methods.contains(0u8) && version == 5 && command == 1 && kind != 1 && kind != 3
                && kind != 4 ==> r == Some(
                Err::<HostPortView, SocksError>(SocksError::AddressType(kind)),
            )
        }),
{
    reveal_with_fuel(conversation, 6);
    let i2 = seq![version, command, reserved, kind] + rest;
    lemma_after_the_methods(methods, i2);
    let i3 = i2.skip(1);
    let i4 = i3.skip(1);
    let i5 = i4.skip(1);
    assert(i2.take(1)[0] == version);
    assert(i3.take(1)[0] == command);
    assert(i4.take(1)[0] == reserved);
    assert(i5.take(1)[0] == kind);
}

/// A client that asks for an address has that address, byte for byte, and the port behind it, the
/// more significant byte first.
pub proof fn asked_address_is_the_destination(
    methods: Seq<u8>,
    reserved: u8,
    addr: Seq<u8>,
    high: u8,
    low: u8,
    rest: Seq<u8>,
)
    requires
        methods.len() < 256,
        methods.contains(0u8),
        addr.len() == 4 || addr.len() == 16,
    ensures
        ({
            let kind: u8 = if addr.len() == 4 {
                1
            } else {
                4
            };
            let input = seq![methods.len() as u8] + methods + (seq![5u8, 1, reserved, kind] + addr
                + seq![high, low] + rest);
            let r = conversation(SocksState::NumMethods, input);
            &&& r is Some && r->Some_0 is Ok
            &&& match r->Some_0->Ok_0 {
                HostPortView::V4(a, port) => addr.len() == 4 && a == addr && port == 256 * high
                    + low,
                HostPortView::V6(g, port) => {
                    &&& addr.len() == 16 && g.len() == 8
                    &&& port == 256 * high + low
                    &&& forall|i: int|
                        0 <= i < 8 ==> #[trigger] g[i] == 256 * addr[2 * i] + addr[2 * i + 1]
                },
                HostPortView::Domain(_, _) => false,
            }
        }),
{
    reveal_with_fuel(conversation, 7);
    let kind: u8 = if addr.len() == 4 {
        1
    } else {
        4
    };
    let i2 = seq![5u8, 1, reserved, kind] + addr + seq![high, low] + rest;
    lemma_after_the_methods(methods, i2);
    let i3 = i2.skip(1);
    let i4 = i3.skip(1);
    let i5 = i4.skip(1);
    let i6 = i5.skip(1);
    assert(i2.take(1)[0] == 5);
    assert(i3.take(1)[0] == 1);
    assert(i4.take(1)[0] == reserved);
    assert(i5.take(1)[0] == kind);
    assert(i6 =~= addr + seq![high, low] + rest);
    let n = addr.len() as int;
    let b = i6.take(n + 2);
    assert(b =~= addr + seq![high, low]);
    assert(b.take(4) =~= addr.take(4));
    if n == 4 {
        assert(addr.take(4) =~= addr);
        assert(codec::be16_at(b, 4) == 256 * high + low);
    } else {
        assert(codec::be16_at(b, 16) == 256 * high + low);
        assert forall|i: int| 0 <= i < 8 implies #[trigger] groups(b)[i] == 256 * addr[2 * i]
            + addr[2 * i + 1] by {}
    }
}

/// A client that asks for a name has that name for its destination, with the port behind it, unless
/// the name is an address in writing: then it has that address.
pub proof fn asked_name_is_the_destination(name: Seq<char>, high: u8, low: u8)
    ensures
        ({
            let r = name_port_of(vstd::utf8::encode_utf8(name) + seq![high, low]);
            let port = (256 * high + low) as u16;
            &&& r is Some
            &&& ip::v4_of(name) matches Some(octets) ==> r == Some(HostPortView::V4(octets, port))
            &&& ip::v4_of(name) is None && ip::v6_of(name) is Some ==> r == Some(
                HostPortView::V6(ip::v6_of(name)->Some_0, port),
            )
            &&& ip::v4_of(name) is None && ip::v6_of(name) is None ==> r == Some(
                HostPortView::Domain(name, port),
            )
        }),
{
    let body = vstd::utf8::encode_utf8(name);
    let b = body + seq![high, low];
    assert(b.take(b.len() - 2) =~= body);
    vstd::utf8::encode_utf8_valid_utf8(name);
    vstd::utf8::encode_utf8_decode_utf8(name);
    assert(b[b.len() - 2] == high && b[b.len() - 1] == low);
}

} // verus!
