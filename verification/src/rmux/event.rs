//! Events of an encrypted session. The layout is that of [`crate::mux::event`]; the flags are
//! their own, and a window grant carries its amount in the header's length, without a body.

use vstd::prelude::*;
use crate::mux::event;
use crate::mux::event::{get_flag_len, EventView};

pub use crate::mux::event::{Header, EVENT_HEADER_LEN};

verus! {

pub const FLAG_SYN: u8 = 1;

pub const FLAG_FIN: u8 = 2;

pub const FLAG_DATA: u8 = 3;

pub const FLAG_WIN_UPDATE: u8 = 4;

pub const FLAG_PING: u8 = 5;

pub const FLAG_AUTH: u8 = 6;

pub const FLAG_SHUTDOWN: u8 = 7;

pub const FLAG_PONG: u8 = 8;

pub const FLAG_ROUTINE: u8 = 9;

/// The name of an event's flag.
pub fn get_event_type_str(flags: u8) -> (r: &'static str)
    ensures
        r == match flags {
            1 => "FLAG_SYN",
            2 => "FLAG_FIN",
            3 => "FLAG_DATA",
            4 => "FLAG_WIN_UPDATE",
            5 => "FLAG_PING",
            6 => "FLAG_AUTH",
            7 => "FLAG_SHUTDOWN",
            8 => "FLAG_PONG",
            _ => "INVALID",
        },
{
    if flags == FLAG_SYN {
        "FLAG_SYN"
    } else if flags == FLAG_FIN {
        "FLAG_FIN"
    } else if flags == FLAG_DATA {
        "FLAG_DATA"
    } else if flags == FLAG_WIN_UPDATE {
        "FLAG_WIN_UPDATE"
    } else if flags == FLAG_PING {
        "FLAG_PING"
    } else if flags == FLAG_AUTH {
        "FLAG_AUTH"
    } else if flags == FLAG_SHUTDOWN {
        "FLAG_SHUTDOWN"
    } else if flags == FLAG_PONG {
        "FLAG_PONG"
    } else {
        "INVALID"
    }
}

#[derive(Debug)]
pub struct Event {
    pub header: Header,
    pub body: Vec<u8>,
    /// The event came from the peer.
    pub remote: bool,
}

impl View for Event {
    type V = EventView;

    open spec fn view(&self) -> EventView {
        EventView {
            flag_len: self.header.flag_len,
            stream_id: self.header.stream_id,
            body: self.body@,
        }
    }
}

impl Clone for Event {
    fn clone(&self) -> (r: Event)
        ensures
            r@ == self@,
            r.remote == self.remote,
    {
        Event { header: self.header, body: self.body.clone(), remote: self.remote }
    }
}

impl Event {
    pub fn is_empty(&self) -> (r: bool)
        ensures
            r == (self.header.flag() == 0),
    {
        self.header.flags() == 0
    }
}

fn bare_event(flag: u8, sid: u32, remote: bool) -> (ev: Event)
    ensures
        ev@ == event::event_of(flag, sid, Seq::empty()),
        ev.remote == remote,
{
    Event {
        header: Header { flag_len: get_flag_len(0, flag), stream_id: sid },
        body: Vec::new(),
        remote,
    }
}

pub fn new_empty_event(remote: bool) -> (ev: Event)
    ensures
        ev@ == event::event_of(0, 0, Seq::empty()),
        ev.remote == remote,
{
    bare_event(0, 0, remote)
}

fn flagged_event(flag: u8, sid: u32, buf: &[u8], remote: bool) -> (ev: Event)
    ensures
        ev@ == event::event_of(flag, sid, buf@),
        ev.remote == remote,
{
    proof {
        event::lemma_pack_truncated(buf.len(), flag);
    }
    Event {
        header: Header { flag_len: get_flag_len(buf.len() as u32, flag), stream_id: sid },
        body: vstd::slice::slice_to_vec(buf),
        remote,
    }
}

/// The login, with the encoded request as its body.
pub fn new_auth_event(sid: u32, data: &[u8]) -> (ev: Event)
    ensures
        ev@ == event::event_of(FLAG_AUTH, sid, data@),
        !ev.remote,
{
    flagged_event(FLAG_AUTH, sid, data, false)
}

/// Opens a stream, with the encoded request as its body.
pub fn new_syn_event(sid: u32, data: &[u8]) -> (ev: Event)
    ensures
        ev@ == event::event_of(FLAG_SYN, sid, data@),
        !ev.remote,
{
    flagged_event(FLAG_SYN, sid, data, false)
}

pub fn new_fin_event(sid: u32, remote: bool) -> (ev: Event)
    ensures
        ev@ == event::event_of(FLAG_FIN, sid, Seq::empty()),
        ev.remote == remote,
{
    bare_event(FLAG_FIN, sid, remote)
}

pub fn new_shutdown_event(sid: u32, remote: bool) -> (ev: Event)
    ensures
        ev@ == event::event_of(FLAG_SHUTDOWN, sid, Seq::empty()),
        ev.remote == remote,
{
    bare_event(FLAG_SHUTDOWN, sid, remote)
}

pub fn new_routine_event(sid: u32) -> (ev: Event)
    ensures
        ev@ == event::event_of(FLAG_ROUTINE, sid, Seq::empty()),
        !ev.remote,
{
    bare_event(FLAG_ROUTINE, sid, false)
}

pub fn new_ping_event(sid: u32, remote: bool) -> (ev: Event)
    ensures
        ev@ == event::event_of(FLAG_PING, sid, Seq::empty()),
        ev.remote == remote,
{
    bare_event(FLAG_PING, sid, remote)
}

pub fn new_pong_event(sid: u32, remote: bool) -> (ev: Event)
    ensures
        ev@ == event::event_of(FLAG_PONG, sid, Seq::empty()),
        ev.remote == remote,
{
    bare_event(FLAG_PONG, sid, remote)
}

pub fn new_data_event(sid: u32, buf: &[u8], remote: bool) -> (ev: Event)
    ensures
        ev@ == event::event_of(FLAG_DATA, sid, buf@),
        ev.remote == remote,
{
    flagged_event(FLAG_DATA, sid, buf, remote)
}

/// Grants the peer `len` more bytes on the stream.
pub fn new_window_update_event(sid: u32, len: u32, remote: bool) -> (ev: Event)
    ensures
        ev@ == (EventView {
            flag_len: event::pack(len as int, FLAG_WIN_UPDATE),
            stream_id: sid,
            body: Seq::empty(),
        }),
        ev.remote == remote,
{
    Event {
        header: Header { flag_len: get_flag_len(len, FLAG_WIN_UPDATE), stream_id: sid },
        body: Vec::new(),
        remote,
    }
}

} // verus!
