//! Relaying between a client and the remote side.

use vstd::prelude::*;
use crate::text::same_text;

verus! {

/// How long, in seconds, either side of a client's relay may send nothing.
pub const RELAY_TIMEOUT_SECS: u32 = 30;

/// How the remote side is reached.
#[derive(Debug, PartialEq, Eq, Structural, Clone, Copy)]
pub enum RelayRoute {
    /// Over a stream of this session.
    Session(u64),
    /// By a datagram socket.
    Udp,
    /// By a connection.
    Tcp,
}

/// Where a connection is relayed to: over a session where there is one, else by itself.
pub open spec fn route_of(session: Option<u64>, proto: Seq<char>) -> RelayRoute {
    match session {
        Some(queue) => RelayRoute::Session(queue),
        None => if proto == "udp"@ {
            RelayRoute::Udp
        } else {
            RelayRoute::Tcp
        },
    }
}

/// How the remote side is reached: over a session, where there is one, and else directly.
pub fn relay_route(session: Option<u64>, proto: &str) -> (r: RelayRoute)
    ensures
        r == route_of(session, proto@),
{
    match session {
        Some(queue) => RelayRoute::Session(queue),
        None => {
            if same_text(proto, "udp") {
                RelayRoute::Udp
            } else {
                RelayRoute::Tcp
            }
        },
    }
}

/// What happens on a relay.
#[derive(Debug, PartialEq, Eq, Structural, Clone, Copy)]
pub enum RelayEvent {
    /// What was to be sent first is out.
    Started,
    /// The client sends no more.
    LocalEof,
    /// The remote side sends no more.
    RemoteEof,
}

/// What is done about it.
#[derive(Debug, PartialEq, Eq, Structural, Clone, Copy)]
pub enum RelayAction {
    /// Copy in both directions.
    Copy,
    /// End the direction to the remote side.
    ShutdownRemote,
    /// End the direction to the client.
    ShutdownLocal,
    /// Leave the client's connection as it is.
    LeaveLocal,
    Nothing,
}

/// A relay between a client and the remote side.
#[derive(Debug, PartialEq, Eq, Structural, Clone, Copy)]
pub struct Relay {
    /// Copying has started.
    pub started: bool,
    pub close_on_local_eof: bool,
    /// The client's connection is left as it is when the remote side is through.
    pub close_local: bool,
    pub local_done: bool,
    pub remote_done: bool,
}

impl Relay {
    pub fn new(close_on_local_eof: bool) -> (r: Relay)
        ensures
            r == (Relay {
                started: false,
                close_on_local_eof,
                close_local: true,
                local_done: false,
                remote_done: false,
            }),
    {
        Relay {
            started: false,
            close_on_local_eof,
            close_local: true,
            local_done: false,
            remote_done: false,
        }
    }

    /// What an event leads to.
    pub open spec fn next(self, ev: RelayEvent) -> (Relay, RelayAction) {
        match ev {
            RelayEvent::Started => if self.started {
                (self, RelayAction::Nothing)
            } else {
                (Relay { started: true, ..self }, RelayAction::Copy)
            },
            RelayEvent::LocalEof => if !self.started || self.local_done {
                (self, RelayAction::Nothing)
            } else {
                (
                    Relay {
                        local_done: true,
                        close_local: self.close_local && self.close_on_local_eof,
                        ..self
                    },
                    RelayAction::ShutdownRemote,
                )
            },
            RelayEvent::RemoteEof => if !self.started || self.remote_done {
                (self, RelayAction::Nothing)
            } else {
                (
                    Relay { remote_done: true, ..self },
                    if self.close_local {
                        RelayAction::LeaveLocal
                    } else {
                        RelayAction::ShutdownLocal
                    },
                )
            },
        }
    }

    /// Acts on an event. The direction to the client is ended only after the client sent its
    /// last, and only where that does not close its connection.
    pub fn step(&mut self, ev: RelayEvent) -> (action: RelayAction)
        ensures
            (*final(self), action) == old(self).next(ev),
    {
        match ev {
            RelayEvent::Started => {
                if self.started {
                    return RelayAction::Nothing;
                }
                self.started = true;
                RelayAction::Copy
            },
            RelayEvent::LocalEof => {
                if !self.started || self.local_done {
                    return RelayAction::Nothing;
                }
                self.local_done = true;
                if !self.close_on_local_eof {
                    self.close_local = false;
                }
                RelayAction::ShutdownRemote
            },
            RelayEvent::RemoteEof => {
                if !self.started || self.remote_done {
                    return RelayAction::Nothing;
                }
                self.remote_done = true;
                if self.close_local {
                    RelayAction::LeaveLocal
                } else {
                    RelayAction::ShutdownLocal
                }
            },
        }
    }

    pub fn is_done(&self) -> (r: bool)
        ensures
            r == (self.local_done && self.remote_done),
    {
        self.local_done && self.remote_done
    }
}

/// A client that ends its direction is still sent what the remote side has left, and its
/// connection is ended after that, where it asked for that.
pub proof fn half_closed_client_is_ended_last(r: Relay)
    requires
        r.started,
        !r.local_done,
        !r.remote_done,
        !r.close_on_local_eof,
    ensures
        r.next(RelayEvent::LocalEof).1 == RelayAction::ShutdownRemote,
        r.next(RelayEvent::LocalEof).0.next(RelayEvent::RemoteEof).1 == RelayAction::ShutdownLocal,
{
}

/// A relay that closes with its client never ends the direction to it by itself.
pub proof fn closing_relay_leaves_the_client(r: Relay, ev: RelayEvent)
    requires
        r.close_on_local_eof,
        r.close_local,
    ensures
        r.next(ev).0.close_local,
        r.next(ev).1 != RelayAction::ShutdownLocal,
{
}

/// The end of a direction is passed on to the other side, once, and when both have ended the relay
/// is done: on the side of the client it is ended or left to close, as was asked for.
pub proof fn ends_are_passed_on(r: Relay)
    requires
        r.started,
    ensures
        !r.local_done ==> {
            &&& r.next(RelayEvent::LocalEof).1 == RelayAction::ShutdownRemote
            &&& r.next(RelayEvent::LocalEof).0.local_done
            &&& r.next(RelayEvent::LocalEof).0.remote_done == r.remote_done
        },
        r.local_done ==> r.next(RelayEvent::LocalEof) == (r, RelayAction::Nothing),
        !r.remote_done ==> {
            &&& r.next(RelayEvent::RemoteEof).0.remote_done
            &&& r.next(RelayEvent::RemoteEof).0.local_done == r.local_done
            &&& r.next(RelayEvent::RemoteEof).1 == RelayAction::LeaveLocal || r.next(
                RelayEvent::RemoteEof,
            ).1 == RelayAction::ShutdownLocal
            &&& r.next(RelayEvent::RemoteEof).1 == RelayAction::LeaveLocal <==> r.close_local
        },
        r.remote_done ==> r.next(RelayEvent::RemoteEof) == (r, RelayAction::Nothing),
        r.next(RelayEvent::Started) == (r, RelayAction::Nothing),
{
}

/// Nothing ends before the relay has started, and it starts with copying.
pub proof fn relay_starts_with_copying(r: Relay)
    requires
        !r.started,
    ensures
        r.next(RelayEvent::Started).1 == RelayAction::Copy,
        r.next(RelayEvent::Started).0.started,
        r.next(RelayEvent::LocalEof) == (r, RelayAction::Nothing),
        r.next(RelayEvent::RemoteEof) == (r, RelayAction::Nothing),
{
}

/// A session is used whenever there is one; without one only the one protocol goes by datagrams.
pub proof fn session_is_used_where_there_is_one(session: Option<u64>, proto: Seq<char>)
    ensures
        session matches Some(queue) ==> route_of(session, proto) == RelayRoute::Session(queue),
        session is None ==> (route_of(session, proto) is Udp <==> proto == seq!['u', 'd', 'p']),
        session is None ==> !(route_of(session, proto) is Session),
{
    reveal_strlit("udp");
    assert("udp"@ =~= seq!['u', 'd', 'p']);
}

} // verus!
