//! The streams of one connection, and what the connection's events do to them.

use std::collections::HashMap;
use vstd::prelude::*;
use crate::mux::common;
use crate::mux::common::{ChannelMuxStream, StreamView};
use crate::mux::event;
use crate::mux::event::EventView;
use crate::mux::message;
use crate::mux::message::ConnectRequest;
use crate::rmux::event::{
    new_fin_event, new_ping_event, new_shutdown_event, new_syn_event, Event, FLAG_DATA, FLAG_FIN,
    FLAG_PING, FLAG_SHUTDOWN, FLAG_SYN, FLAG_WIN_UPDATE,
};

verus! {

/// What an event of the peer asks for.
pub enum MuxAction {
    Nothing,
    /// Connect to the address, and relay the stream there.
    Relay { id: u32, request: ConnectRequest },
    /// The request could not be read; the event goes into the queue.
    Refuse(Event),
    /// The data is for the stream's reader.
    Deliver { id: u32, data: Vec<u8> },
    /// The stream's reader has nothing more to come.
    Close(u32),
}

pub struct ChannelMuxSession {
    id: u32,
    next_stream_id: u32,
    streams: HashMap<u32, ChannelMuxStream>,
}

#[verifier::ext_equal]
pub struct SessionView {
    pub id: u32,
    /// The number of the next stream that is opened from here.
    pub next: u32,
    pub streams: Map<u32, StreamView>,
}

spec fn stream_views(m: Map<u32, ChannelMuxStream>) -> Map<u32, StreamView> {
    Map::new(|k: u32| m.contains_key(k), |k: u32| m[k]@)
}

impl View for ChannelMuxSession {
    type V = SessionView;

    closed spec fn view(&self) -> SessionView {
        SessionView {
            id: self.id,
            next: self.next_stream_id,
            streams: stream_views(self.streams@),
        }
    }
}

impl SessionView {
    /// Each stream is kept under its number.
    pub open spec fn wf(self) -> bool {
        &&& self.streams.dom().finite()
        &&& forall|k: u32| #[trigger]
            self.streams.contains_key(k) ==> self.streams[k].wf() && self.streams[k].id == k
    }

    /// The stream with the number; a new one where there is none.
    pub open spec fn stream_or_fresh(self, sid: u32) -> StreamView {
        if self.streams.contains_key(sid) {
            self.streams[sid]
        } else {
            StreamView::fresh(sid)
        }
    }

    pub open spec fn with(self, s: StreamView) -> SessionView {
        SessionView { streams: self.streams.insert(s.id, s), ..self }
    }

    pub open spec fn without(self, sid: u32) -> SessionView {
        SessionView { streams: self.streams.remove(sid), ..self }
    }

    /// The session after an event of the peer.
    pub open spec fn after(self, ev: EventView) -> SessionView {
        let flag = ev.header().flag();
        let id = ev.stream_id;
        if flag == FLAG_SYN {
            self.with(self.stream_or_fresh(id).split())
        } else if flag == FLAG_FIN {
            self.without(id)
        } else if flag == FLAG_WIN_UPDATE && self.streams.contains_key(id) {
            self.with(self.streams[id].granted(ev.header().body_len()))
        } else {
            self
        }
    }

    /// What an event of the peer asks for.
    pub open spec fn asks(self, ev: EventView, action: MuxAction) -> bool {
        let flag = ev.header().flag();
        let id = ev.stream_id;
        if flag == FLAG_SYN {
            match message::texts_in(ev.body) {
                Some(req) => action matches MuxAction::Relay { id: i, request } && i == id
                    && request@ == req,
                None => action matches MuxAction::Refuse(fin) && fin@ == event::event_of(
                    FLAG_FIN,
                    id,
                    Seq::empty(),
                ),
            }
        } else if flag == FLAG_FIN && self.streams.contains_key(id) && !self.streams[id].closed {
            action == MuxAction::Close(id)
        } else if flag == FLAG_DATA && self.streams.contains_key(id) && self.streams[id].reader {
            action matches MuxAction::Deliver { id: i, data } && i == id && data@ == ev.body
        } else {
            action is Nothing
        }
    }
}

impl ChannelMuxSession {
    /// Streams that a client opens have odd numbers, those of a server even ones.
    pub fn new(is_client: bool, id: u32) -> (r: ChannelMuxSession)
        ensures
            r@ == (SessionView {
                id,
                next: if is_client {
                    1
                } else {
                    2
                },
                streams: Map::empty(),
            }),
            r@.wf(),
    {
        let next_stream_id: u32 = if is_client {
            1
        } else {
            2
        };
        let r = ChannelMuxSession { id, next_stream_id, streams: HashMap::new() };
        assert(r@.streams =~= Map::empty());
        r
    }

    pub fn id(&self) -> (r: u32)
        ensures
            r == self@.id,
    {
        self.id
    }

    pub fn num_of_streams(&self) -> (r: usize)
        ensures
            r == self@.streams.dom().len(),
    {
        assert(self@.streams.dom() =~= self.streams@.dom());
        self.streams.len()
    }

    /// What is put into the queue to end the connection.
    pub fn close(&self) -> (r: Event)
        ensures
            r@ == event::event_of(FLAG_SHUTDOWN, 0, Seq::empty()),
    {
        new_shutdown_event(0, false)
    }

    /// What is put into the queue to show that the connection is in use.
    pub fn ping(&self) -> (r: Event)
        ensures
            r@ == event::event_of(FLAG_PING, 0, Seq::empty()),
    {
        new_ping_event(0, false)
    }

    pub fn next_stream_id(&mut self) -> (r: u32)
        ensures
            r == old(self)@.next,
            final(self)@ == (SessionView {
                next: u32::wrapping_add(old(self)@.next, 2),
                ..old(self)@
            }),
    {
        let r: u32 = self.next_stream_id;
        self.next_stream_id = r.wrapping_add(2);
        r
    }

    /// Takes the stream out, to read or write it.
    pub fn take_stream(&mut self, sid: u32) -> (r: Option<ChannelMuxStream>)
        requires
            old(self)@.wf(),
        ensures
            final(self)@.wf(),
            final(self)@ == old(self)@.without(sid),
            match r {
                Some(s) => old(self)@.streams.contains_key(sid) && s@ == old(self)@.streams[sid],
                None => !old(self)@.streams.contains_key(sid),
            },
    {
        let ghost pre = self@;
        let r = self.streams.remove(&sid);
        assert(self@.streams =~= pre.streams.remove(sid));
        r
    }

    /// Puts a stream under its number.
    pub fn put_stream(&mut self, s: ChannelMuxStream)
        requires
            old(self)@.wf(),
            s@.wf(),
        ensures
            final(self)@.wf(),
            final(self)@ == old(self)@.with(s@),
    {
        let ghost pre = self@;
        let sid: u32 = s.id();
        let ghost view = s@;
        let _ = self.streams.insert(sid, s);
        assert(self@.streams =~= pre.streams.insert(sid, view));
    }

    fn take_or_fresh(&mut self, sid: u32) -> (r: ChannelMuxStream)
        requires
            old(self)@.wf(),
        ensures
            final(self)@.wf(),
            final(self)@ == old(self)@.without(sid),
            r@ == old(self)@.stream_or_fresh(sid),
            r@.wf(),
            r@.id == sid,
    {
        match self.take_stream(sid) {
            Some(s) => s,
            None => ChannelMuxStream::new(sid),
        }
    }

    /// Keeps the stream with the number, or makes one.
    pub fn new_stream(&mut self, sid: u32)
        requires
            old(self)@.wf(),
        ensures
            final(self)@.wf(),
            final(self)@ == old(self)@.with(old(self)@.stream_or_fresh(sid)),
    {
        let ghost pre = self@;
        let s = self.take_or_fresh(sid);
        let ghost view = s@;
        self.put_stream(s);
        assert(pre.streams.remove(sid).insert(sid, view) =~= pre.streams.insert(sid, view));
    }

    /// Opens a stream to an address; the event goes into the queue.
    pub fn open_stream(&mut self, proto: &str, addr: &str) -> (r: (u32, Event))
        requires
            old(self)@.wf(),
        ensures
            final(self)@.wf(),
            opens(old(self)@, final(self)@, proto@, addr@, r.0, r.1@),
    {
        let sid: u32 = self.next_stream_id();
        self.new_stream(sid);
        let request = ConnectRequest { proto: proto.to_owned(), addr: addr.to_owned() };
        let data = request.to_bytes();
        (sid, new_syn_event(sid, data.as_slice()))
    }

    /// Closes the stream; the event goes into the queue where the end started here.
    pub fn close_stream(&mut self, sid: u32, initial: bool) -> (r: Option<Event>)
        requires
            old(self)@.wf(),
        ensures
            final(self)@.wf(),
            closes(old(self)@, final(self)@, sid, initial, common::event_view(r)),
    {
        match self.take_stream(sid) {
            Some(s) => {
                let mut s = s;
                s.close(initial)
            },
            None => None,
        }
    }

    fn handle_syn(&mut self, id: u32, body: &[u8]) -> (r: MuxAction)
        requires
            old(self)@.wf(),
        ensures
            final(self)@.wf(),
            final(self)@ == old(self)@.with(old(self)@.stream_or_fresh(id).split()),
            match message::texts_in(body@) {
                Some(req) => r matches MuxAction::Relay { id: i, request } && i == id && request@
                    == req,
                None => r matches MuxAction::Refuse(fin) && fin@ == event::event_of(
                    FLAG_FIN,
                    id,
                    Seq::empty(),
                ),
            },
    {
        let ghost pre = self@;
        let mut s = self.take_or_fresh(id);
        s.split();
        let ghost view = s@;
        self.put_stream(s);
        assert(pre.streams.remove(id).insert(id, view) =~= pre.streams.insert(id, view));
        match ConnectRequest::from_bytes(body) {
            Some(request) => MuxAction::Relay { id, request },
            None => MuxAction::Refuse(new_fin_event(id, false)),
        }
    }

    /// Acts on an event of the peer.
    pub fn handle_mux_event(&mut self, ev: Event) -> (r: MuxAction)
        requires
            old(self)@.wf(),
        ensures
            final(self)@.wf(),
            final(self)@ == old(self)@.after(ev@),
            old(self)@.asks(ev@, r),
    {
        let ghost pre = self@;
        let flags: u8 = ev.header.flags();
        let id: u32 = ev.header.stream_id;
        if flags == FLAG_SYN {
            self.handle_syn(id, ev.body.as_slice())
        } else if flags == FLAG_FIN {
            match self.take_stream(id) {
                Some(s) => {
                    let mut s = s;
                    let was_closed = s.is_closed();
                    let _ = s.close(false);
                    if was_closed {
                        MuxAction::Nothing
                    } else {
                        MuxAction::Close(id)
                    }
                },
                None => MuxAction::Nothing,
            }
        } else if flags == FLAG_DATA {
            match self.take_stream(id) {
                Some(s) => {
                    let ghost view = s@;
                    let taken = s.handle_recv_data(ev.body);
                    self.put_stream(s);
                    assert(pre.streams.remove(id).insert(id, view) =~= pre.streams);
                    match taken {
                        Some(data) => MuxAction::Deliver { id, data },
                        None => MuxAction::Nothing,
                    }
                },
                None => {
                    assert(pre.streams.remove(id) =~= pre.streams);
                    MuxAction::Nothing
                },
            }
        } else if flags == FLAG_WIN_UPDATE {
            match self.take_stream(id) {
                Some(s) => {
                    let mut s = s;
                    s.handle_window_update(ev.header.len());
                    let ghost view = s@;
                    self.put_stream(s);
                    assert(pre.streams.remove(id).insert(id, view) =~= pre.streams.insert(
                        id,
                        view,
                    ));
                },
                None => {
                    assert(pre.streams.remove(id) =~= pre.streams);
                },
            }
            MuxAction::Nothing
        } else {
            MuxAction::Nothing
        }
    }
}

/// An event of the peer touches no stream but its own, and not the numbering.
pub proof fn peer_touches_its_stream_only(s: SessionView, ev: EventView, other: u32)
    requires
        s.wf(),
        other != ev.stream_id,
    ensures
        s.after(ev).streams.contains_key(other) == s.streams.contains_key(other),
        s.streams.contains_key(other) ==> s.after(ev).streams[other] == s.streams[other],
        s.after(ev).next == s.next,
{
}

/// The two sides open streams with numbers of their own kind: those of a client stay odd and those
/// of a server even.
pub proof fn stream_numbers_stay_apart(next: u32)
    ensures
        u32::wrapping_add(next, 2) % 2 == next % 2,
{
}

/// What one side asks for with a new stream, the other reads as it was asked.
pub proof fn request_arrives(s: SessionView, sid: u32, proto: Seq<char>, addr: Seq<char>, a: MuxAction)
    requires
        s.wf(),
        message::fits(proto),
        message::fits(addr),
        s.asks(
            event::event_of(
                FLAG_SYN,
                sid,
                message::text_block(proto) + message::text_block(addr),
            ),
            a,
        ),
    ensures
        a matches MuxAction::Relay { id, request } && id == sid && request@ == (proto, addr),
{
    let body = message::text_block(proto) + message::text_block(addr);
    message::request_reads_back(proto, addr, Seq::empty());
    assert(body + Seq::<u8>::empty() =~= body);
    event::pack_unpacks(body.len() as int, FLAG_SYN, sid);
}

/// What each event of the peer does: a first one opens a stream and asks for a relay or is refused
/// with an end of the stream, an end takes the stream off and tells its reader, data goes to the
/// stream's reader as it is, a grant adds to the stream's window, and nothing else does anything.
pub proof fn events_of_the_peer_do_what_they_say(s: SessionView, ev: EventView, a: MuxAction)
    requires
        s.wf(),
        s.asks(ev, a),
    ensures
        ({
            let flag = ev.header().flag();
            let id = ev.stream_id;
            let t = s.after(ev);
            let known = s.streams.contains_key(id);
            &&& flag == 1 ==> {
                &&& t.streams.contains_key(id) && t.streams[id].reader
                &&& a is Relay || a is Refuse
                &&& a matches MuxAction::Refuse(fin) ==> fin@.header().flag() == 2 && fin@.stream_id
                    == id && fin@.body.len() == 0
                &&& a matches MuxAction::Relay { id: i, .. } ==> i == id
            }
            &&& flag == 2 ==> {
                &&& !t.streams.contains_key(id)
                &&& a == if known && !s.streams[id].closed {
                    MuxAction::Close(id)
                } else {
                    MuxAction::Nothing
                }
            }
            &&& flag == 3 ==> {
                &&& t == s
                &&& known && s.streams[id].reader ==> a is Deliver && a->Deliver_id == id
                    && a->data@ == ev.body
                &&& !(known && s.streams[id].reader) ==> a is Nothing
            }
            &&& flag == 4 && known ==> {
                &&& a is Nothing
                &&& t.streams.contains_key(id)
                &&& s.streams[id].send_window + ev.header().body_len() <= u32::MAX
                    ==> t.streams[id].send_window == s.streams[id].send_window
                    + ev.header().body_len()
                &&& t.streams[id].closed == s.streams[id].closed
                &&& t.streams[id].buffered == s.streams[id].buffered
            }
            &&& flag == 0 || flag > 4 || (flag == 4 && !known) ==> t == s && a is Nothing
        }),
{
    if ev.header().flag() == 4 && s.streams.contains_key(ev.stream_id) {
        assert(s.streams[ev.stream_id].id == ev.stream_id);
    }
}

/// The opening of a stream to an address.
pub open spec fn opens(
    pre: SessionView,
    post: SessionView,
    proto: Seq<char>,
    addr: Seq<char>,
    id: u32,
    out: EventView,
) -> bool {
    &&& id == pre.next
    &&& out == event::event_of(
        FLAG_SYN,
        id,
        message::text_block(proto) + message::text_block(addr),
    )
    &&& post == (SessionView {
        next: u32::wrapping_add(pre.next, 2),
        ..pre.with(pre.stream_or_fresh(id))
    })
}

/// The closing of a stream.
pub open spec fn closes(
    pre: SessionView,
    post: SessionView,
    sid: u32,
    initial: bool,
    out: Option<EventView>,
) -> bool {
    &&& post == pre.without(sid)
    &&& out == if initial && pre.streams.contains_key(sid) && !pre.streams[sid].closed {
        Some(event::event_of(FLAG_FIN, sid, Seq::empty()))
    } else {
        None
    }
}

/// A stream that is opened here is there under the next number, which is used up.
pub proof fn opened_stream_has_the_next_number(
    pre: SessionView,
    post: SessionView,
    proto: Seq<char>,
    addr: Seq<char>,
    id: u32,
    out: EventView,
)
    requires
        pre.wf(),
        opens(pre, post, proto, addr, id, out),
    ensures
        id == pre.next,
        post.next != id && post.next % 2 == id % 2,
        post.streams.contains_key(id),
        !pre.streams.contains_key(id) ==> post.streams[id].send_window == 131072
            && !post.streams[id].closed && post.streams[id].buffered.len() == 0,
        out.stream_id == id,
{
    if pre.streams.contains_key(id) {
        assert(pre.streams[id].id == id);
    }
}

/// The peer reads the request for a stream as it was made.
pub proof fn opened_stream_is_requested(
    pre: SessionView,
    post: SessionView,
    proto: Seq<char>,
    addr: Seq<char>,
    id: u32,
    out: EventView,
    peer: SessionView,
    a: MuxAction,
)
    requires
        peer.wf(),
        message::fits(proto),
        message::fits(addr),
        opens(pre, post, proto, addr, id, out),
        peer.asks(out, a),
    ensures
        a matches MuxAction::Relay { id: i, request } && i == id && request@ == (proto, addr),
{
    request_arrives(peer, id, proto, addr, a);
}

/// A stream that is closed here is gone; the peer is told if it was open and the end started here,
/// and then takes it off, too.
pub proof fn closed_stream_is_gone_at_both_ends(
    pre: SessionView,
    post: SessionView,
    sid: u32,
    out: Option<EventView>,
    peer: SessionView,
)
    requires
        pre.wf(),
        closes(pre, post, sid, true, out),
        pre.streams.contains_key(sid),
        !pre.streams[sid].closed,
    ensures
        !post.streams.contains_key(sid),
        out is Some,
        !peer.after(out->Some_0).streams.contains_key(sid),
        forall|k: u32|
            k != sid ==> (#[trigger] post.streams.contains_key(k) <==> pre.streams.contains_key(k)),
{
}

} // verus!
