//! The event loop of an encrypted session: what to do about each event, from the peer or from the
//! session's own streams.

use std::collections::HashMap;
use bytes::BytesMut;
use vstd::prelude::*;
use crate::mux::message;
use crate::mux::event;
use crate::rmux::crypto;
use crate::buf;
use crate::mux::event::EventView;
use crate::rmux::crypto::{encrypted_event, ContextView, CryptoContext};
use crate::rmux::event::{
    new_pong_event, Event, FLAG_DATA, FLAG_FIN, FLAG_PING, FLAG_PONG, FLAG_SHUTDOWN, FLAG_SYN,
    FLAG_WIN_UPDATE,
};
use crate::rmux::message::ConnectRequest;
use crate::rmux::stream::{CloseStep, MuxStream, StreamView};

verus! {

/// A stream that was opened here and that the loop does not know yet.
pub struct PendingStream {
    pub id: u32,
    pub target: ConnectRequest,
}

impl View for PendingStream {
    type V = (u32, (Seq<char>, Seq<char>));

    open spec fn view(&self) -> (u32, (Seq<char>, Seq<char>)) {
        (self.id, self.target@)
    }
}

pub open spec fn pending_views(v: Seq<PendingStream>) -> Seq<(u32, (Seq<char>, Seq<char>))> {
    Seq::new(v.len(), |i: int| v[i]@)
}

/// What an event asks for.
pub enum SessionAction {
    /// The session ends.
    Stop,
    /// Send the bytes to the peer.
    Send(BytesMut),
    /// Serve the peer's request. Where a stream of this number is there already it stays, and the
    /// new one is on its own.
    Serve { stream_id: u32, target: ConnectRequest, known: bool },
    /// Deliver the data to the stream's reader.
    Deliver { stream_id: u32, data: Vec<u8> },
    /// Wake the stream's writer.
    Wake(u32),
    /// The peer answered a ping.
    Pong,
    Nothing,
}

/// What an event asks for; a stream may have been closed on the way.
pub struct SessionStep {
    pub closed: Option<CloseStep>,
    pub action: SessionAction,
}

/// The loop of a session.
pub struct SessionLoop {
    channel: String,
    tunnel_id: u32,
    streams: HashMap<u32, MuxStream>,
    retired: bool,
    wctx: CryptoContext,
    relay_buf_size: usize,
}

/// The state of a session.
#[verifier::ext_equal]
pub struct LoopView {
    pub channel: Seq<char>,
    pub id: u32,
    pub streams: Map<u32, StreamView>,
    /// The session takes no new streams, and ends with its last one.
    pub retired: bool,
    /// How events are encrypted.
    pub out: ContextView,
    pub relay_buf_size: usize,
}

spec fn stream_views(m: Map<u32, MuxStream>) -> Map<u32, StreamView> {
    Map::new(|k: u32| m.contains_key(k), |k: u32| m[k]@)
}

impl View for SessionLoop {
    type V = LoopView;

    closed spec fn view(&self) -> LoopView {
        LoopView {
            channel: self.channel@,
            id: self.tunnel_id,
            streams: stream_views(self.streams@),
            retired: self.retired,
            out: self.wctx@,
            relay_buf_size: self.relay_buf_size,
        }
    }
}

impl LoopView {
    pub open spec fn wf(self) -> bool {
        &&& self.out.wf()
        &&& 4 * self.relay_buf_size <= i32::MAX
    }

    /// A new stream of the session.
    pub open spec fn fresh(self, id: u32, target: (Seq<char>, Seq<char>)) -> StreamView {
        StreamView {
            target,
            channel: self.channel,
            session_id: self.id,
            id,
            send_window: (4 * self.relay_buf_size) as i32,
            unreported: 0,
            closed: false,
            received: 0,
            sent: 0,
            buffered: Seq::empty(),
            parked: false,
            relay_buf_size: self.relay_buf_size,
        }
    }

    /// The state with the pending streams taken in, one after the other.
    pub open spec fn adopted(self, pending: Seq<(u32, (Seq<char>, Seq<char>))>) -> LoopView
        decreases pending.len(),
    {
        if pending.len() == 0 {
            self
        } else {
            let rest = self.adopted(pending.drop_last());
            let p = pending.last();
            LoopView { streams: rest.streams.insert(p.0, self.fresh(p.0, p.1)), ..rest }
        }
    }

    /// The state without the stream.
    pub open spec fn without(self, id: u32) -> LoopView {
        LoopView { streams: self.streams.remove(id), ..self }
    }

    /// The state after the event was encrypted.
    pub open spec fn sending(self, ev: EventView) -> LoopView {
        LoopView { out: self.out.after_encrypt(ev), ..self }
    }

    /// Ending: the session is retired and its last stream is gone.
    pub open spec fn drained(self) -> bool {
        self.retired && self.streams.dom() == Set::<u32>::empty()
    }

    /// The state after an event of the session's own streams.
    pub open spec fn after_local(
        self,
        ev: EventView,
        pending: Seq<(u32, (Seq<char>, Seq<char>))>,
    ) -> LoopView {
        if ev.header().flag() == FLAG_SHUTDOWN {
            self
        } else if ev.header().flag() == FLAG_SYN {
            self.adopted(pending).sending(ev)
        } else if ev.header().flag() == FLAG_FIN {
            let rest = self.without(ev.stream_id);
            if rest.drained() {
                rest
            } else {
                rest.sending(ev)
            }
        } else {
            self.sending(ev)
        }
    }

    /// The state after an event of the peer.
    pub open spec fn after_remote(self, ev: EventView) -> LoopView {
        let id = ev.stream_id;
        if ev.header().flag() == FLAG_SYN {
            match message::texts_in(ev.body) {
                Some(target) => if self.streams.contains_key(id) {
                    self
                } else {
                    LoopView { streams: self.streams.insert(id, self.fresh(id, target)), ..self }
                },
                None => self,
            }
        } else if ev.header().flag() == FLAG_FIN {
            self.without(id)
        } else if ev.header().flag() == FLAG_PING {
            self.sending(event::event_of(FLAG_PONG, id, Seq::empty()))
        } else if ev.header().flag() == FLAG_WIN_UPDATE && self.streams.contains_key(id) {
            LoopView {
                streams: self.streams.insert(id, self.streams[id].credited(ev.header().body_len())),
                ..self
            }
        } else {
            self
        }
    }

    /// The event can be handled: data for an open stream is not empty, and the numbers that
    /// events are encrypted with are not used up.
    pub open spec fn takes(self, ev: EventView, remote: bool) -> bool {
        &&& remote && ev.header().flag() == FLAG_DATA && self.streams.contains_key(ev.stream_id)
            && !self.streams[ev.stream_id].closed ==> ev.body.len() > 0
        &&& self.out.cipher is Some ==> self.out.nonce < u64::MAX && self.out.sealed < u64::MAX
        &&& ev.body.len() + 24 <= isize::MAX
    }
}

/// The stream was closed: its reader is told, its writer is woken, and its end is queued.
pub open spec fn closes(pre: LoopView, id: u32, closed: Option<CloseStep>) -> bool {
    match closed {
        Some(c) => {
            &&& pre.streams.contains_key(id)
            &&& c.wake == pre.streams[id].parked
            &&& c.fin@ == event::event_of(FLAG_FIN, pre.streams[id].id, Seq::empty())
            &&& !c.fin.remote
        },
        None => !pre.streams.contains_key(id),
    }
}

/// The bytes are the frame of the event, which holds all of it where the event can be told from
/// its frame.
pub open spec fn sends(pre: LoopView, ev: EventView, bytes: BytesMut) -> bool {
    &&& buf::buf_of(bytes) == pre.out.frame(ev)
    &&& crypto::sendable(ev) && ev.body.len() <= u32::MAX ==> pre.out.frames(ev)
}

/// What an event of the session's own streams asks for: all of them go to the peer, but for the
/// order to stop and for the end of the last stream of a retired session.
pub open spec fn local_action(pre: LoopView, ev: EventView, step: SessionStep) -> bool {
    &&& if ev.header().flag() == FLAG_FIN {
        closes(pre, ev.stream_id, step.closed)
    } else {
        step.closed is None
    }
    &&& if ev.header().flag() == FLAG_SHUTDOWN || (ev.header().flag() == FLAG_FIN && pre.without(
        ev.stream_id,
    ).drained()) {
        step.action is Stop
    } else {
        step.action is Send && sends(pre, ev, step.action->Send_0)
    }
}

/// What an event of the peer asks for.
pub open spec fn remote_action(pre: LoopView, ev: EventView, step: SessionStep) -> bool {
    let id = ev.stream_id;
    &&& if ev.header().flag() == FLAG_FIN {
        closes(pre, id, step.closed)
    } else {
        step.closed is None
    }
    &&& if ev.header().flag() == FLAG_SYN {
        match message::texts_in(ev.body) {
            Some(target) => {
                &&& step.action matches SessionAction::Serve { stream_id, target: t, known }
                &&& stream_id == id
                &&& t@ == target
                &&& known == pre.streams.contains_key(id)
            },
            None => step.action is Nothing,
        }
    } else if ev.header().flag() == FLAG_FIN {
        if pre.without(id).drained() {
            step.action is Stop
        } else {
            step.action is Nothing
        }
    } else if ev.header().flag() == FLAG_DATA {
        if pre.streams.contains_key(id) && !pre.streams[id].closed {
            &&& step.action matches SessionAction::Deliver { stream_id, data }
            &&& stream_id == id
            &&& data@ == ev.body
        } else {
            step.action is Nothing
        }
    } else if ev.header().flag() == FLAG_PING {
        step.action is Send && sends(
            pre,
            event::event_of(FLAG_PONG, id, Seq::empty()),
            step.action->Send_0,
        )
    } else if ev.header().flag() == FLAG_PONG {
        step.action is Pong
    } else if ev.header().flag() == FLAG_WIN_UPDATE {
        if pre.streams.contains_key(id) && pre.streams[id].parked && !pre.streams[id].credited(
            ev.header().body_len(),
        ).parked {
            step.action == SessionAction::Wake(id)
        } else {
            step.action is Nothing
        }
    } else {
        step.action is Nothing
    }
}

impl SessionLoop {
    pub fn new(channel: &str, tunnel_id: u32, wctx: CryptoContext, relay_buf_size: usize) -> (r:
        SessionLoop)
        requires
            wctx.wf(),
            4 * relay_buf_size <= i32::MAX,
        ensures
            r@.wf(),
            r@ == (LoopView {
                channel: channel@,
                id: tunnel_id,
                streams: Map::empty(),
                retired: false,
                out: wctx@,
                relay_buf_size,
            }),
    {
        let r = SessionLoop {
            channel: channel.to_owned(),
            tunnel_id,
            streams: HashMap::new(),
            retired: false,
            wctx,
            relay_buf_size,
        };
        assert(r@.streams =~= Map::<u32, StreamView>::empty());
        r
    }

    /// Whether another event can be encrypted.
    pub fn can_send(&self) -> (r: bool)
        ensures
            r == (self@.out.cipher is Some ==> self@.out.nonce < u64::MAX && self@.out.sealed
                < u64::MAX),
    {
        self.wctx.can_encrypt()
    }

    /// From now on the session ends with its last stream.
    pub fn retire(&mut self)
        ensures
            final(self)@ == (LoopView { retired: true, ..old(self)@ }),
    {
        self.retired = true;
    }

    /// Takes a stream out, for its reader or writer to use.
    pub fn take_stream(&mut self, id: u32) -> (r: Option<MuxStream>)
        ensures
            match r {
                Some(s) => {
                    &&& old(self)@.streams.contains_key(id)
                    &&& s@ == old(self)@.streams[id]
                    &&& final(self)@ == old(self)@.without(id)
                },
                None => !old(self)@.streams.contains_key(id) && final(self)@ == old(self)@,
            },
    {
        let ghost pre = self@;
        let r = self.streams.remove(&id);
        proof {
            assert(self@.streams =~= pre.streams.remove(id));
            if r is None {
                assert(self@.streams =~= pre.streams);
            }
        }
        r
    }

    /// Puts a stream in under its number.
    pub fn put_stream(&mut self, id: u32, s: MuxStream)
        ensures
            final(self)@ == (LoopView { streams: old(self)@.streams.insert(id, s@), ..old(self)@ }),
    {
        let ghost pre = self@;
        let ghost view = s@;
        self.streams.insert(id, s);
        assert(self@.streams =~= pre.streams.insert(id, view));
    }

    /// Whether the event needs the streams that wait to be taken in.
    pub fn wants_pending(ev: &Event) -> (r: bool)
        ensures
            r == (!ev.remote && ev@.header().flag() == FLAG_SYN),
    {
        !ev.remote && ev.header.flags() == FLAG_SYN
    }

    fn new_stream(&self, id: u32, target: ConnectRequest) -> (r: MuxStream)
        requires
            self@.wf(),
        ensures
            r@ == self@.fresh(id, target@),
    {
        MuxStream::new(self.channel.as_str(), self.tunnel_id, id, target, self.relay_buf_size)
    }

    fn adopt(&mut self, pending: Vec<PendingStream>)
        requires
            old(self)@.wf(),
        ensures
            final(self)@ == old(self)@.adopted(pending_views(pending@)),
            final(self)@ == (LoopView { streams: final(self)@.streams, ..old(self)@ }),
            final(self)@.wf(),
    {
        let ghost pre = self@;
        let ghost all = pending_views(pending@);
        let mut i: usize = 0;
        assert(all.take(0) =~= Seq::empty());
        while i < pending.len()
            invariant
                i <= pending@.len(),
                all == pending_views(pending@),
                pre.wf(),
                self@ == pre.adopted(all.take(i as int)),
                self@.wf(),
                self@ == (LoopView { streams: self@.streams, ..pre }),
            decreases pending@.len() - i,
        {
            let ghost before = self@;
            let p = &pending[i];
            let s = self.new_stream(p.id, p.target.clone());
            let ghost fresh = s@;
            self.streams.insert(p.id, s);
            i += 1;
            proof {
                assert(all.take(i as int).drop_last() =~= all.take(i - 1));
                assert(all.take(i as int).last() == p@);
                assert(self@.streams =~= before.streams.insert(p.id, fresh));
            }
        }
        assert(all.take(i as int) =~= all);
    }

    /// Takes the stream off the session and closes it.
    fn close_stream(&mut self, id: u32) -> (r: Option<CloseStep>)
        ensures
            final(self)@ == old(self)@.without(id),
            closes(old(self)@, id, r),
    {
        let ghost pre = self@;
        let removed = self.streams.remove(&id);
        assert(self@.streams =~= pre.streams.remove(id));
        match removed {
            Some(s) => {
                let mut s = s;
                Some(s.close())
            },
            None => None,
        }
    }

    fn is_drained(&self) -> (r: bool)
        ensures
            r == self@.drained(),
    {
        let n: usize = self.streams.len();
        proof {
            assert(self@.streams.dom() =~= self.streams@.dom());
            if n == 0 {
                assert(self.streams@.dom() =~= Set::<u32>::empty());
            }
        }
        self.retired && n == 0
    }

    fn send(&mut self, ev: &Event) -> (r: SessionAction)
        requires
            old(self)@.wf(),
            old(self)@.out.cipher is Some ==> old(self)@.out.nonce < u64::MAX && old(
                self,
            )@.out.sealed < u64::MAX,
            ev@.body.len() + 24 <= isize::MAX,
        ensures
            final(self)@.wf(),
            final(self)@ == old(self)@.sending(ev@),
            r is Send,
            sends(old(self)@, ev@, r->Send_0),
    {
        SessionAction::Send(encrypted_event(&mut self.wctx, ev))
    }

    fn handle_local(&mut self, ev: Event, pending: Vec<PendingStream>) -> (step: SessionStep)
        requires
            old(self)@.wf(),
            old(self)@.takes(ev@, false),
        ensures
            final(self)@.wf(),
            final(self)@ == old(self)@.after_local(ev@, pending_views(pending@)),
            local_action(old(self)@, ev@, step),
    {
        let flags: u8 = ev.header.flags();
        if flags == FLAG_SHUTDOWN {
            return SessionStep { closed: None, action: SessionAction::Stop };
        }
        if flags == FLAG_SYN {
            self.adopt(pending);
        }
        let mut closed: Option<CloseStep> = None;
        if flags == FLAG_FIN {
            closed = self.close_stream(ev.header.stream_id);
            if self.is_drained() {
                return SessionStep { closed, action: SessionAction::Stop };
            }
        }
        let action = self.send(&ev);
        SessionStep { closed, action }
    }

    fn handle_syn(&mut self, ev: &Event) -> (action: SessionAction)
        requires
            old(self)@.wf(),
            ev@.header().flag() == FLAG_SYN,
        ensures
            final(self)@.wf(),
            final(self)@ == old(self)@.after_remote(ev@),
            remote_action(old(self)@, ev@, (SessionStep { closed: None, action })),
    {
        let ghost pre = self@;
        let id: u32 = ev.header.stream_id;
        let target = match ConnectRequest::from_bytes(ev.body.as_slice()) {
            Some(t) => t,
            None => {
                return SessionAction::Nothing;
            },
        };
        let known: bool = self.streams.contains_key(&id);
        if !known {
            let s = self.new_stream(id, target.clone());
            self.streams.insert(id, s);
            assert(self@.streams =~= pre.streams.insert(id, pre.fresh(id, target@)));
        }
        SessionAction::Serve { stream_id: id, target, known }
    }

    fn handle_data(&mut self, ev: Event) -> (action: SessionAction)
        requires
            old(self)@.wf(),
            ev@.header().flag() == FLAG_DATA,
            old(self)@.takes(ev@, true),
        ensures
            final(self)@ == old(self)@,
            remote_action(old(self)@, ev@, (SessionStep { closed: None, action })),
    {
        let id: u32 = ev.header.stream_id;
        let ghost pre = self@;
        match self.take_stream(id) {
            Some(stream) => {
                let mut stream = stream;
                let offered = stream.offer_data(ev.body);
                self.put_stream(id, stream);
                assert(self@.streams =~= pre.streams);
                match offered {
                    Some(data) => SessionAction::Deliver { stream_id: id, data },
                    None => SessionAction::Nothing,
                }
            },
            None => SessionAction::Nothing,
        }
    }

    fn handle_window(&mut self, ev: &Event) -> (action: SessionAction)
        requires
            old(self)@.wf(),
            ev@.header().flag() == FLAG_WIN_UPDATE,
        ensures
            final(self)@ == old(self)@.after_remote(ev@),
            remote_action(old(self)@, ev@, (SessionStep { closed: None, action })),
    {
        let id: u32 = ev.header.stream_id;
        let ghost pre = self@;
        match self.take_stream(id) {
            Some(stream) => {
                let mut stream = stream;
                let wake: bool = stream.update_send_window(ev.header.len());
                let ghost credited = stream@;
                self.put_stream(id, stream);
                assert(self@.streams =~= pre.streams.insert(id, credited));
                if wake {
                    SessionAction::Wake(id)
                } else {
                    SessionAction::Nothing
                }
            },
            None => SessionAction::Nothing,
        }
    }

    /// Acts on an event. The streams that wait to be taken in come with an event that opens one
    /// from here.
    pub fn handle_event(&mut self, ev: Event, pending: Vec<PendingStream>) -> (step: SessionStep)
        requires
            old(self)@.wf(),
            old(self)@.takes(ev@, ev.remote),
        ensures
            final(self)@.wf(),
            ev.remote ==> final(self)@ == old(self)@.after_remote(ev@) && remote_action(
                old(self)@,
                ev@,
                step,
            ),
            !ev.remote ==> final(self)@ == old(self)@.after_local(ev@, pending_views(pending@))
                && local_action(old(self)@, ev@, step),
    {
        if !ev.remote {
            return self.handle_local(ev, pending);
        }
        let flags: u8 = ev.header.flags();
        let id: u32 = ev.header.stream_id;
        if flags == FLAG_SYN {
            let action = self.handle_syn(&ev);
            SessionStep { closed: None, action }
        } else if flags == FLAG_FIN {
            let closed = self.close_stream(id);
            if self.is_drained() {
                SessionStep { closed, action: SessionAction::Stop }
            } else {
                SessionStep { closed, action: SessionAction::Nothing }
            }
        } else if flags == FLAG_DATA {
            let action = self.handle_data(ev);
            SessionStep { closed: None, action }
        } else if flags == FLAG_PING {
            let pong = new_pong_event(id, false);
            let action = self.send(&pong);
            SessionStep { closed: None, action }
        } else if flags == FLAG_PONG {
            SessionStep { closed: None, action: SessionAction::Pong }
        } else if flags == FLAG_WIN_UPDATE {
            let action = self.handle_window(&ev);
            SessionStep { closed: None, action }
        } else {
            SessionStep { closed: None, action: SessionAction::Nothing }
        }
    }
}

/// An event of the peer touches no stream but its own.
pub proof fn peer_touches_one_stream(s: LoopView, ev: EventView, other: u32)
    requires
        other != ev.stream_id,
    ensures
        s.after_remote(ev).streams.contains_key(other) == s.streams.contains_key(other),
        s.streams.contains_key(other) ==> s.after_remote(ev).streams[other] == s.streams[other],
{
}

/// A retired session ends with its last stream, whichever side closes it.
pub proof fn retired_session_ends(s: LoopView, ev: EventView, step: SessionStep)
    requires
        s.retired,
        ev.header().flag() == FLAG_FIN,
        forall|id: u32| s.streams.contains_key(id) ==> id == ev.stream_id,
        local_action(s, ev, step) || remote_action(s, ev, step),
    ensures
        step.action is Stop,
{
    assert(s.without(ev.stream_id).streams.dom() =~= Set::<u32>::empty());
}

/// A session that is not retired goes on, whatever the peer sends: only its own order stops it.
pub proof fn peer_cannot_stop_a_session(s: LoopView, ev: EventView, step: SessionStep)
    requires
        !s.retired,
        remote_action(s, ev, step),
    ensures
        !(step.action is Stop),
{
}

/// The two contexts are in step: what the one encrypts next the other decrypts next, and both
/// have counted as many events.
pub open spec fn in_step(c: ContextView, d: ContextView) -> bool {
    crypto::matched(c, d) && c.nonce == d.nonce
}

/// Decrypting the bytes under the peer's context gives back the event, from the peer, and nothing
/// is left; the two contexts stay in step.
pub open spec fn comes_out(
    bytes: Seq<u8>,
    ev: EventView,
    after: ContextView,
    peer: ContextView,
) -> bool {
    forall|next: ContextView, left: Seq<u8>, r: Result<Event, crypto::DecryptError>| #[trigger]
        crypto::decrypts(peer, next, bytes, left, r) ==> {
            &&& r is Ok
            &&& r->Ok_0@ == ev
            &&& r->Ok_0.remote
            &&& left.len() == 0
            &&& in_step(after, next)
        }
}

proof fn lemma_frame_comes_out(c: ContextView, ev: EventView, peer: ContextView)
    requires
        in_step(c, peer),
        c.frames(ev),
        c.cipher is Some ==> c.nonce < u64::MAX && c.sealed < u64::MAX,
    ensures
        comes_out(c.frame(ev), ev, c.after_encrypt(ev), peer),
{
    let bytes = c.frame(ev);
    assert forall|next: ContextView, left: Seq<u8>, r: Result<Event, crypto::DecryptError>|
        #[trigger] crypto::decrypts(peer, next, bytes, left, r) implies r is Ok && r->Ok_0@ == ev
        && r->Ok_0.remote && left.len() == 0 && in_step(c.after_encrypt(ev), next) by {
        assert(bytes =~= bytes + Seq::<u8>::empty());
        assert(crypto::arrives(bytes, c, ev, Seq::empty()));
    }
}

/// Every event of the session's own streams goes to the peer, but for the order to stop, and for
/// the end of the last stream of a retired session: what is asked to be sent comes out at the
/// peer's end as this very event.
pub proof fn local_events_reach_the_peer(
    s: LoopView,
    ev: EventView,
    pending: Seq<(u32, (Seq<char>, Seq<char>))>,
    step: SessionStep,
    peer: ContextView,
)
    requires
        s.takes(ev, false),
        local_action(s, ev, step),
        crypto::sendable(ev),
        in_step(s.out, peer),
        ev.flag_len % 256 != 7,
        ev.flag_len % 256 != 2 || !s.retired || exists|id: u32|
            #[trigger] s.streams.contains_key(id) && id != ev.stream_id,
    ensures
        step.action is Send,
        comes_out(
            buf::buf_of(step.action->Send_0),
            ev,
            s.after_local(ev, pending).out,
            peer,
        ),
{
    if ev.flag_len % 256 == 2 && s.retired {
        let id = choose|id: u32| #[trigger] s.streams.contains_key(id) && id != ev.stream_id;
        assert(s.without(ev.stream_id).streams.dom().contains(id));
    }
    assert(s.out.frames(ev));
    lemma_frame_comes_out(s.out, ev, peer);
    lemma_adopting_leaves_the_context(s, pending);
}

proof fn lemma_adopting_leaves_the_context(
    s: LoopView,
    pending: Seq<(u32, (Seq<char>, Seq<char>))>,
)
    ensures
        s.adopted(pending).out == s.out,
    decreases pending.len(),
{
    if pending.len() > 0 {
        lemma_adopting_leaves_the_context(s, pending.drop_last());
    }
}

/// Data that is written on a stream here is the data that the peer's session delivers to the
/// stream's reader there.
pub proof fn data_is_carried_to_the_peer(
    s: LoopView,
    ev: EventView,
    pending: Seq<(u32, (Seq<char>, Seq<char>))>,
    step: SessionStep,
    peer: ContextView,
    next: ContextView,
    left: Seq<u8>,
    r: Result<Event, crypto::DecryptError>,
    p: LoopView,
    there: SessionStep,
)
    requires
        s.takes(ev, false),
        local_action(s, ev, step),
        in_step(s.out, peer),
        ev.flag_len % 256 == 3,
        ev.flag_len / 256 == ev.body.len(),
        ev.body.len() > 0,
        step.action is Send ==> crypto::decrypts(
            peer,
            next,
            buf::buf_of(step.action->Send_0),
            left,
            r,
        ),
        p.streams.contains_key(ev.stream_id),
        !p.streams[ev.stream_id].closed,
        r is Ok ==> remote_action(p, r->Ok_0@, there),
    ensures
        r is Ok,
        there.action is Deliver,
        there.action->Deliver_stream_id == ev.stream_id,
        there.action->Deliver_data@ == ev.body,
        there.closed is None,
        p.after_remote(r->Ok_0@) == p,
{
    local_events_reach_the_peer(s, ev, pending, step, peer);
}

/// The order to stop ends the session, and so does the end of a retired session's last stream,
/// wherever it comes from; nothing else does.
pub proof fn sessions_stop_when_told_or_drained(s: LoopView, ev: EventView, step: SessionStep)
    requires
        local_action(s, ev, step) || remote_action(s, ev, step),
    ensures
        local_action(s, ev, step) && ev.flag_len % 256 == 7 ==> step.action is Stop,
        step.action is Stop && ev.flag_len % 256 != 7 ==> {
            &&& s.retired
            &&& ev.flag_len % 256 == 2
            &&& forall|id: u32| #[trigger] s.streams.contains_key(id) ==> id == ev.stream_id
        },
{
    if step.action is Stop && ev.flag_len % 256 == 2 {
        assert forall|id: u32| #[trigger] s.streams.contains_key(id) implies id == ev.stream_id by {
            if id != ev.stream_id {
                assert(s.without(ev.stream_id).streams.dom().contains(id));
            }
        }
    }
}

/// A stream that ends, at either end, is off the session: its writer is woken where it waits, the
/// end is queued for the peer, and no other stream is touched. Where there is no such stream
/// nothing changes.
pub proof fn ended_stream_is_taken_off(s: LoopView, ev: EventView, step: SessionStep)
    requires
        ev.flag_len % 256 == 2,
        local_action(s, ev, step) || remote_action(s, ev, step),
    ensures
        ({
            let id = ev.stream_id;
            let here = s.after_local(ev, Seq::empty());
            let there = s.after_remote(ev);
            &&& here.streams == there.streams
            &&& !there.streams.contains_key(id)
            &&& forall|k: u32|
                k != id ==> #[trigger] there.streams.contains_key(k) == s.streams.contains_key(k)
            &&& forall|k: u32|
                k != id && s.streams.contains_key(k) ==> #[trigger] there.streams[k]
                    == s.streams[k]
            &&& there.retired == s.retired
            &&& there.out == s.out
        }),
        s.streams.contains_key(ev.stream_id) ==> {
            &&& step.closed is Some
            &&& step.closed->Some_0.wake == s.streams[ev.stream_id].parked
            &&& step.closed->Some_0.fin.header.flag_len == 2
            &&& step.closed->Some_0.fin.header.stream_id == s.streams[ev.stream_id].id
            &&& !step.closed->Some_0.fin.remote
        },
        !s.streams.contains_key(ev.stream_id) ==> step.closed is None,
{
}

/// The streams that wait to be taken in are on the session once one of them is opened, with the
/// targets they are for; those that were there before stay, unless one of the same number came.
pub proof fn opened_streams_are_taken_in(
    s: LoopView,
    ev: EventView,
    pending: Seq<(u32, (Seq<char>, Seq<char>))>,
    i: int,
    other: u32,
)
    requires
        ev.flag_len % 256 == 1,
        0 <= i < pending.len(),
        forall|j: int| i < j < pending.len() ==> (#[trigger] pending[j]).0 != pending[i].0,
        forall|j: int| 0 <= j < pending.len() ==> (#[trigger] pending[j]).0 != other,
    ensures
        ({
            let t = s.after_local(ev, pending);
            &&& t.streams.contains_key(pending[i].0)
            &&& t.streams[pending[i].0].target == pending[i].1
            &&& t.streams[pending[i].0].id == pending[i].0
            &&& !t.streams[pending[i].0].closed
            &&& t.streams.contains_key(other) == s.streams.contains_key(other)
            &&& s.streams.contains_key(other) ==> t.streams[other] == s.streams[other]
        }),
{
    lemma_taken_in(s, pending, i, other);
}

proof fn lemma_taken_in(
    s: LoopView,
    pending: Seq<(u32, (Seq<char>, Seq<char>))>,
    i: int,
    other: u32,
)
    requires
        0 <= i < pending.len() ==> forall|j: int|
            i < j < pending.len() ==> (#[trigger] pending[j]).0 != pending[i].0,
        forall|j: int| 0 <= j < pending.len() ==> (#[trigger] pending[j]).0 != other,
    ensures
        ({
            let t = s.adopted(pending);
            &&& 0 <= i < pending.len() ==> t.streams.contains_key(pending[i].0)
                && t.streams[pending[i].0] == s.fresh(pending[i].0, pending[i].1)
            &&& t.streams.contains_key(other) == s.streams.contains_key(other)
            &&& s.streams.contains_key(other) ==> t.streams[other] == s.streams[other]
        }),
    decreases pending.len(),
{
    if pending.len() > 0 {
        let before = pending.drop_last();
        assert forall|j: int| 0 <= j < before.len() implies (#[trigger] before[j]).0 != other by {
            assert(before[j] == pending[j]);
        }
        if 0 <= i < before.len() {
            assert forall|j: int| i < j < before.len() implies (#[trigger] before[j]).0
                != before[i].0 by {
                assert(before[j] == pending[j]);
            }
            assert(pending[pending.len() - 1].0 != pending[i].0);
        }
        assert(pending[pending.len() - 1].0 != other);
        lemma_taken_in(s, before, i, other);
    }
}

/// An event of the peer that asks for a stream: the session serves the target that the peer wrote
/// down, and has a stream for it; a stream of the same number that is there already stays as it
/// is.
pub proof fn requests_of_the_peer_are_served(
    s: LoopView,
    ev: EventView,
    proto: Seq<char>,
    addr: Seq<char>,
    step: SessionStep,
)
    requires
        ev.flag_len % 256 == 1,
        ev.body == message::text_block(proto) + message::text_block(addr),
        message::fits(proto),
        message::fits(addr),
        remote_action(s, ev, step),
    ensures
        step.action is Serve,
        step.action->Serve_stream_id == ev.stream_id,
        step.action->target.proto@ == proto,
        step.action->target.addr@ == addr,
        step.action->known == s.streams.contains_key(ev.stream_id),
        s.after_remote(ev).streams.contains_key(ev.stream_id),
        !s.streams.contains_key(ev.stream_id) ==> {
            let t = s.after_remote(ev).streams[ev.stream_id];
            &&& t.target == (proto, addr)
            &&& t.id == ev.stream_id
            &&& t.buffered.len() == 0
            &&& !t.closed
            &&& s.wf() ==> t.send_window == 4 * s.relay_buf_size
        },
        s.streams.contains_key(ev.stream_id) ==> s.after_remote(ev) == s,
{
    assert(ev.body =~= ev.body + Seq::<u8>::empty());
    message::request_reads_back(proto, addr, Seq::empty());
}

/// A ping of the peer is answered: what is asked to be sent comes out at the peer's end as a pong
/// for the same stream, and that pong is told as the answer.
pub proof fn pings_are_answered(
    s: LoopView,
    ev: EventView,
    step: SessionStep,
    peer: ContextView,
    pong: EventView,
    p: LoopView,
    there: SessionStep,
)
    requires
        ev.flag_len % 256 == 5,
        s.takes(ev, true),
        remote_action(s, ev, step),
        in_step(s.out, peer),
        pong.flag_len == 8 && pong.stream_id == ev.stream_id && pong.body.len() == 0,
        remote_action(p, pong, there),
    ensures
        step.action is Send,
        comes_out(buf::buf_of(step.action->Send_0), pong, s.after_remote(ev).out, peer),
        s.after_remote(ev).streams == s.streams,
        there.action is Pong,
        p.after_remote(pong) == p,
{
    assert(pong.body =~= Seq::empty());
    assert(pong == event::event_of(FLAG_PONG, ev.stream_id, Seq::empty()));
    assert(crypto::sendable(pong));
    lemma_frame_comes_out(s.out, pong, peer);
}

/// What the peer grants is added to the stream's window, and a writer that waits is woken once
/// there is some; no other stream is touched.
pub proof fn grants_of_the_peer_are_added(s: LoopView, ev: EventView, step: SessionStep)
    requires
        ev.flag_len % 256 == 4,
        s.streams.contains_key(ev.stream_id),
        remote_action(s, ev, step),
        s.streams[ev.stream_id].send_window + ev.flag_len / 256 <= i32::MAX,
    ensures
        ({
            let e = s.streams[ev.stream_id];
            let t = s.after_remote(ev).streams[ev.stream_id];
            &&& t.send_window == e.send_window + ev.flag_len / 256
            &&& t.parked == (e.parked && e.send_window + ev.flag_len / 256 <= 0)
            &&& t.buffered == e.buffered && t.closed == e.closed && t.unreported == e.unreported
            &&& step.action == SessionAction::Wake(ev.stream_id) <==> e.parked && e.send_window
                + ev.flag_len / 256 > 0
            &&& step.action is Wake || step.action is Nothing
        }),
{
    let inc: u32 = ev.flag_len / 256;
    assert(inc as i32 == inc);
}

/// Data for a stream that is closed or not there is dropped, and changes nothing; data for any
/// other is delivered to it.
pub proof fn data_is_only_for_open_streams(pre: LoopView, ev: EventView, step: SessionStep)
    requires
        remote_action(pre, ev, step),
        ev.header().flag() == 3,
    ensures
        step.action is Deliver <==> pre.streams.contains_key(ev.stream_id)
            && !pre.streams[ev.stream_id].closed,
        !(step.action is Deliver) ==> step.action is Nothing,
        pre.after_remote(ev) == pre,
        step.closed is None,
{
}

} // verus!
