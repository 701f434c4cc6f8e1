//! The dispatcher of a multiplexed connection: which streams it carries, what it does with each
//! control message and each frame, and the connection's pings.

use bytes::Bytes;
use std::collections::{HashMap, VecDeque};
use std::task::Waker;
use vstd::prelude::*;
use crate::text;
use crate::text::decimal;
use crate::mux::event;
use crate::mux::stream;
use crate::codec;
use crate::buf;
use crate::buf::{bytes_len, bytes_new, bytes_slice};
use crate::codec::read_u32_le;
use crate::mux::event::{
    new_data_event, new_fin_event, new_nonce_ping_event, new_pong_event, new_shutdown_event,
    new_syn_event, new_window_update_event, Event, EventView, FLAG_DATA, FLAG_FIN, FLAG_PING,
    FLAG_PONG, FLAG_SHUTDOWN, FLAG_SYN, FLAG_WIN_UPDATE, MAX_EVENT_BODY_LEN,
};
use crate::mux::stream::{
    Control, ControlView, MuxStream, NewStreamParams, Reserve, StreamFlow, StreamView, WriteStep,
};

verus! {

broadcast use vstd::std_specs::hash::group_hash_axioms;

pub const INITIAL_STREAM_WINDOW: u32 = 256 * 1024;

pub const MIN_STREAM_WINDOW: u32 = 16 * 1024;

pub const MAX_STREAM_WINDOW: u32 = 4 * 1024 * 1024;

/// The read bytes after which a stream with the initial window grants more.
pub const WINDOW_UPDATE_THRESHOLD: u32 = INITIAL_STREAM_WINDOW / 2;

pub const CONTROL_CHANNEL_CAPACITY: usize = 256;

pub const MAX_PENDING_INCOMING_STREAMS: usize = 1024;

pub const MAX_MUX_STREAMS_PER_CONNECTION: usize = 1024;

/// How many windows of data may wait for a stream's reader before the stream counts as stuck.
pub const PENDING_BYTES_CAP_WINDOW_MULTIPLE: u64 = 4;

/// How long a ping waits for its pong, in seconds.
pub const PING_TIMEOUT_SECS: u64 = 5;

/// Why a stream that the peer opens is refused: too many wait to be taken, or too many are open.
pub open spec fn rejection(waiting: usize, active: usize) -> Option<&'static str> {
    if waiting >= MAX_PENDING_INCOMING_STREAMS {
        Some("pending")
    } else if active >= MAX_MUX_STREAMS_PER_CONNECTION {
        Some("active")
    } else {
        None
    }
}

/// Why a stream that the peer opens is refused, if it is.
pub fn incoming_stream_rejection_reason(
    pending_incoming_streams: usize,
    active_streams: usize,
) -> (r: Option<&'static str>)
    ensures
        r == rejection(pending_incoming_streams, active_streams),
{
    if pending_incoming_streams >= MAX_PENDING_INCOMING_STREAMS {
        Some("pending")
    } else if active_streams >= MAX_MUX_STREAMS_PER_CONNECTION {
        Some("active")
    } else {
        None
    }
}

/// The dispatcher's state of one stream.
pub struct StreamEntry {
    /// The number of the flow, which tells the stream from others that had the same id.
    pub flow_id: u64,
    /// How many bytes the peer may still send.
    pub recv_window: u32,
    /// The window in the other direction.
    pub flow: StreamFlow,
    /// Bytes handed to the stream and not yet granted back to the peer.
    pub pending_bytes: u64,
    /// The stream still takes data.
    pub receiver_open: bool,
}

/// The backlog above which a stream counts as stuck.
pub open spec fn backlog_cap(initial_stream_window: u32) -> int {
    initial_stream_window * PENDING_BYTES_CAP_WINDOW_MULTIPLE
}

/// The ids of the streams, in no particular order.
fn stream_ids(entries: &HashMap<u32, StreamEntry>) -> (r: Vec<u32>)
    ensures
        r@.no_duplicates(),
        forall|k: u32| r@.contains(k) <==> entries@.contains_key(k),
{
    let mut r: Vec<u32> = Vec::new();
    for k in it: entries.keys()
        invariant
            it.seq().unref().to_set() == entries@.dom(),
            it.seq().no_duplicates(),
            r@ == it.seq().unref().take(it.index()),
            it.index() == it.seq().len() ==> r@ == it.seq().unref(),
    {
        r.push(*k);
        assert(r@ =~= it.seq().unref().take(it.index() + 1));
        assert(it.index() + 1 == it.seq().len() ==> r@ =~= it.seq().unref());
    }
    assert(r@.to_set() == entries@.dom());
    assert forall|k: u32| r@.contains(k) <==> entries@.contains_key(k) by {
        assert(r@.contains(k) <==> r@.to_set().contains(k));
    }
    r
}

/// A reason to take a stream off the connection.
#[derive(Debug, PartialEq, Eq, Structural, Clone, Copy)]
enum Sweep {
    /// Nobody reads the stream any more.
    ReceiverGone,
    /// More than this many bytes wait for the reader.
    BacklogAbove(u64),
}

impl Sweep {
    spec fn takes(self, e: StreamEntry) -> bool {
        match self {
            Sweep::ReceiverGone => !e.receiver_open,
            Sweep::BacklogAbove(cap) => e.pending_bytes > cap,
        }
    }
}

/// The ids of the streams that the sweep takes, in no particular order.
fn swept_ids(entries: &HashMap<u32, StreamEntry>, sweep: Sweep) -> (r: Vec<u32>)
    ensures
        r@.no_duplicates(),
        forall|k: u32|
            #[trigger] r@.contains(k) <==> entries@.contains_key(k) && sweep.takes(entries@[k]),
{
    let ids = stream_ids(entries);
    let mut r: Vec<u32> = Vec::new();
    let mut i: usize = 0;
    while i < ids.len()
        invariant
            i <= ids@.len(),
            ids@.no_duplicates(),
            forall|k: u32| ids@.contains(k) <==> entries@.contains_key(k),
            r@.no_duplicates(),
            forall|k: u32|
                r@.contains(k) <==> ids@.take(i as int).contains(k) && sweep.takes(entries@[k]),
        decreases ids@.len() - i,
    {
        let sid: u32 = ids[i];
        let ghost before = r@;
        proof {
            lemma_next_of_distinct(ids@, i as int);
        }
        assert(ids@.contains(sid));
        assert(entries@.contains_key(sid));
        assert(!before.contains(sid));
        if let Some(entry) = entries.get(&sid) {
            let taken: bool = match sweep {
                Sweep::ReceiverGone => !entry.receiver_open,
                Sweep::BacklogAbove(cap) => entry.pending_bytes > cap,
            };
            if taken {
                r.push(sid);
                proof {
                    lemma_push_contains(before, sid);
                }
            }
            assert(*entry == entries@[sid]);
        } else {
            assert(false);
        }
        i += 1;
    }
    assert(ids@.take(i as int) =~= ids@);
    r
}

/// A writer to be woken, with the id of its stream.
pub type Wakeup = (u32, Waker);

/// The streams whose writers are to be woken.
pub open spec fn woken_ids(wakeups: Seq<Wakeup>) -> Seq<u32> {
    Seq::new(wakeups.len(), |i: int| wakeups[i].0)
}

/// The wakeups are for those of the streams, once each, whose writers were parked.
pub open spec fn wakes_parked(
    wakeups: Seq<Wakeup>,
    streams: Map<u32, StreamEntry>,
    removed: Set<u32>,
) -> bool {
    &&& woken_ids(wakeups).no_duplicates()
    &&& forall|k: u32| #[trigger]
        woken_ids(wakeups).contains(k) <==> removed.contains(k) && streams.contains_key(k)
            && streams[k].flow.parked() is Some
    &&& forall|i: int|
        0 <= i < wakeups.len() ==> streams[(#[trigger] wakeups[i]).0].flow.parked() == Some(
            wakeups[i].1,
        )
}

/// Closes the flows of the streams, takes them off the connection, and gives the writers that
/// were parked.
fn remove_streams(entries: &mut HashMap<u32, StreamEntry>, ids: &Vec<u32>) -> (woken: Vec<Wakeup>)
    requires
        ids@.no_duplicates(),
        forall|k: u32| ids@.contains(k) ==> old(entries)@.contains_key(k),
    ensures
        final(entries)@ == old(entries)@.remove_keys(ids@.to_set()),
        final(entries)@.len() == old(entries)@.len() - ids@.len(),
        wakes_parked(woken@, old(entries)@, ids@.to_set()),
{
    let ghost pre = entries@;
    let mut woken: Vec<Wakeup> = Vec::new();
    let mut i: usize = 0;
    assert(woken_ids(woken@) =~= Seq::<u32>::empty());
    while i < ids.len()
        invariant
            i <= ids@.len(),
            ids@.no_duplicates(),
            forall|k: u32| ids@.contains(k) ==> pre.contains_key(k),
            entries@ == pre.remove_keys(ids@.take(i as int).to_set()),
            entries@.len() == pre.len() - i,
            wakes_parked(woken@, pre, ids@.take(i as int).to_set()),
        decreases ids@.len() - i,
    {
        let sid: u32 = ids[i];
        let ghost before = entries@;
        proof {
            lemma_next_of_distinct(ids@, i as int);
            assert(ids@.contains(sid));
            assert(before.contains_key(sid));
        }
        let ghost told = woken_ids(woken@);
        if let Some(entry) = entries.remove(&sid) {
            let mut flow = entry.flow;
            assert(flow == pre[sid].flow);
            if let Some(waker) = flow.end() {
                woken.push((sid, waker));
                proof {
                    assert(woken_ids(woken@) =~= told.push(sid));
                    lemma_push_contains(told, sid);
                }
            }
        }
        i += 1;
        assert(entries@ =~= pre.remove_keys(ids@.take(i as int).to_set()));
    }
    assert(ids@.take(i as int) =~= ids@);
    woken
}

/// The streams that nobody reads any more are taken off: how many there were, and which parked
/// writers are woken.
pub open spec fn reaped(
    pre: Map<u32, StreamEntry>,
    post: Map<u32, StreamEntry>,
    count: usize,
    left: usize,
    n: usize,
    wakeups: Seq<Wakeup>,
) -> bool {
    &&& forall|k: u32| #[trigger]
        post.contains_key(k) <==> pre.contains_key(k) && pre[k].receiver_open
    &&& forall|k: u32| #[trigger] post.contains_key(k) ==> post[k] == pre[k]
    &&& n == pre.len() - post.len()
    &&& left == count.wrapping_sub(n)
    &&& wakes_parked(wakeups, pre, pre.dom().difference(post.dom()))
}

/// The streams whose backlog is above the cap are taken off: which these are, and which parked
/// writers are woken.
pub open spec fn drained(
    pre: Map<u32, StreamEntry>,
    post: Map<u32, StreamEntry>,
    count: usize,
    left: usize,
    initial_stream_window: u32,
    ids: Seq<u32>,
    wakeups: Seq<Wakeup>,
) -> bool {
    &&& ids.no_duplicates()
    &&& forall|k: u32| #[trigger]
        ids.contains(k) <==> pre.contains_key(k) && pre[k].pending_bytes > backlog_cap(
            initial_stream_window,
        )
    &&& forall|k: u32| #[trigger]
        post.contains_key(k) <==> pre.contains_key(k) && !ids.contains(k)
    &&& forall|k: u32| #[trigger] post.contains_key(k) ==> post[k] == pre[k]
    &&& post.len() == pre.len() - ids.len()
    &&& left == count.wrapping_sub(ids.len() as usize)
    &&& wakes_parked(wakeups, pre, ids.to_set())
}

/// Takes off the streams that nobody reads any more; says how many there were, and which parked
/// writers are to be woken.
///
/// A stream's own close message can be lost when the control queue is full; without this its
/// entry would stay for ever and count against the connection's limit.
pub fn reap_closed_stream_entries(
    stream_entries: &mut HashMap<u32, StreamEntry>,
    active_stream_count: &mut usize,
) -> (r: (usize, Vec<Wakeup>))
    ensures
        reaped(
            old(stream_entries)@,
            final(stream_entries)@,
            *old(active_stream_count),
            *final(active_stream_count),
            r.0,
            r.1@,
        ),
{
    let ghost pre = stream_entries@;
    let ids = swept_ids(stream_entries, Sweep::ReceiverGone);
    let woken = remove_streams(stream_entries, &ids);
    let reaped: usize = ids.len();
    *active_stream_count = active_stream_count.wrapping_sub(reaped);
    assert(pre.dom().difference(stream_entries@.dom()) =~= ids@.to_set());
    (reaped, woken)
}

/// Takes off the streams whose backlog is above the cap; gives their ids, in no particular order,
/// for the peer to be told, and the parked writers that are to be woken.
pub fn drain_backlog_capped_streams(
    stream_entries: &mut HashMap<u32, StreamEntry>,
    active_stream_count: &mut usize,
    initial_stream_window: u32,
) -> (r: (Vec<u32>, Vec<Wakeup>))
    ensures
        drained(
            old(stream_entries)@,
            final(stream_entries)@,
            *old(active_stream_count),
            *final(active_stream_count),
            initial_stream_window,
            r.0@,
            r.1@,
        ),
{
    let pending_cap: u64 = initial_stream_window as u64 * PENDING_BYTES_CAP_WINDOW_MULTIPLE;
    let stalled = swept_ids(stream_entries, Sweep::BacklogAbove(pending_cap));
    let woken = remove_streams(stream_entries, &stalled);
    *active_stream_count = active_stream_count.wrapping_sub(stalled.len());
    (stalled, woken)
}

/// Of distinct ids, the next one is new, and the ids seen after it are those before and itself.
proof fn lemma_next_of_distinct(ids: Seq<u32>, i: int)
    requires
        ids.no_duplicates(),
        0 <= i < ids.len(),
    ensures
        !ids.take(i).contains(ids[i]),
        forall|k: u32|
            #[trigger] ids.take(i + 1).contains(k) <==> ids.take(i).contains(k) || k == ids[i],
{
    assert(ids.take(i + 1) =~= ids.take(i).push(ids[i]));
    lemma_push_contains(ids.take(i), ids[i]);
}

proof fn lemma_push_contains(s: Seq<u32>, x: u32)
    ensures
        forall|k: u32| #[trigger] s.push(x).contains(k) <==> s.contains(k) || k == x,
        s.no_duplicates() && !s.contains(x) ==> s.push(x).no_duplicates(),
{
    assert forall|k: u32| s.push(x).contains(k) <==> s.contains(k) || k == x by {
        if s.contains(k) {
            let j = choose|j: int| 0 <= j < s.len() && s[j] == k;
            assert(s.push(x)[j] == k);
        }
        if k == x {
            assert(s.push(x)[s.len() as int] == k);
        }
        if s.push(x).contains(k) {
            let j = choose|j: int| 0 <= j < s.push(x).len() && s.push(x)[j] == k;
            if j < s.len() {
                assert(s[j] == k);
            }
        }
    }
}

/// What a frame from the peer asks for.
pub enum Frame {
    /// A message for the dispatcher.
    Control(Control),
    /// The answer to the ping with this nonce.
    Pong(u32),
    /// Nothing: the frame has no meaning here.
    Ignored,
}

/// What a frame from the peer says.
pub enum FrameView {
    Control(ControlView),
    Pong(u32),
    Ignored,
}

impl View for Frame {
    type V = FrameView;

    open spec fn view(&self) -> FrameView {
        match *self {
            Frame::Control(c) => FrameView::Control(c@),
            Frame::Pong(n) => FrameView::Pong(n),
            Frame::Ignored => FrameView::Ignored,
        }
    }
}

/// The meaning of a frame: by its flag, and for pings, pongs and window grants by whether the
/// body is a number. A ping without one is answered with zero.
pub open spec fn frame_of(ev: EventView) -> FrameView {
    let sid = ev.stream_id;
    let flag = ev.header().flag();
    let number = ev.body.len() == 4;
    if flag == FLAG_SYN {
        FrameView::Control(
            ControlView::NewStream(NewStreamParams { stream_id: sid, flow: None }),
        )
    } else if flag == FLAG_FIN {
        FrameView::Control(ControlView::StreamClose(sid, true))
    } else if flag == FLAG_SHUTDOWN {
        FrameView::Control(ControlView::StreamShutdown(sid, true))
    } else if flag == FLAG_DATA {
        FrameView::Control(ControlView::StreamData(sid, ev.body, true))
    } else if flag == FLAG_PING {
        FrameView::Control(
            ControlView::Pong(
                if number {
                    codec::le32_at(ev.body, 0)
                } else {
                    0
                },
            ),
        )
    } else if flag == FLAG_PONG && number {
        FrameView::Pong(codec::le32_at(ev.body, 0))
    } else if flag == FLAG_WIN_UPDATE && number {
        FrameView::Control(ControlView::WindowUpdateFromPeer(sid, codec::le32_at(ev.body, 0)))
    } else {
        FrameView::Ignored
    }
}

/// The meaning of a frame that came from the peer.
pub fn read_frame(ev: Event) -> (r: Frame)
    ensures
        r@ == frame_of(ev@),
{
    let sid: u32 = ev.header.stream_id;
    let flag: u8 = ev.header.flags();
    let number: bool = bytes_len(&ev.body) == 4;
    if flag == FLAG_SYN {
        Frame::Control(Control::NewStream(NewStreamParams { stream_id: sid, flow: None }))
    } else if flag == FLAG_FIN {
        Frame::Control(Control::StreamClose(sid, true))
    } else if flag == FLAG_SHUTDOWN {
        Frame::Control(Control::StreamShutdown(sid, true))
    } else if flag == FLAG_DATA {
        Frame::Control(Control::StreamData(sid, ev.body, true))
    } else if flag == FLAG_PING {
        let nonce: u32 = if number {
            read_u32_le(bytes_slice(&ev.body), 0)
        } else {
            0
        };
        Frame::Control(Control::Pong(nonce))
    } else if flag == FLAG_PONG && number {
        Frame::Pong(read_u32_le(bytes_slice(&ev.body), 0))
    } else if flag == FLAG_WIN_UPDATE && number {
        let inc: u32 = read_u32_le(bytes_slice(&ev.body), 0);
        Frame::Control(Control::WindowUpdateFromPeer(sid, inc))
    } else {
        Frame::Ignored
    }
}

/// What the dispatcher knows of a stream.
pub struct EntryView {
    /// The number of the stream's flow.
    pub flow_id: u64,
    pub recv_window: u32,
    pub pending: u64,
    pub receiver_open: bool,
    pub send_window: u32,
    /// The waker of the writer that waits for window, if one does.
    pub parked: Option<Waker>,
}

impl View for StreamEntry {
    type V = EntryView;

    open spec fn view(&self) -> EntryView {
        EntryView {
            flow_id: self.flow_id,
            recv_window: self.recv_window,
            pending: self.pending_bytes,
            receiver_open: self.receiver_open,
            send_window: self.flow.window(),
            parked: self.flow.parked(),
        }
    }
}

/// What is known of a flow that is open.
pub struct FlowView {
    pub send_window: u32,
    /// The waker of the writer that waits for window, if one does.
    pub parked: Option<Waker>,
}

/// What is known of the flow.
pub open spec fn flow_view(flow: StreamFlow) -> FlowView {
    FlowView { send_window: flow.window(), parked: flow.parked() }
}

impl EntryView {
    pub open spec fn flow(self) -> FlowView {
        FlowView { send_window: self.send_window, parked: self.parked }
    }

    pub open spec fn with_flow(self, f: FlowView) -> EntryView {
        EntryView { send_window: f.send_window, parked: f.parked, ..self }
    }
}

/// Why a call that waits for a stream gets none.
#[derive(Debug, PartialEq, Eq, Structural, Clone, Copy)]
pub enum AcceptError {
    /// "duplicate accept": another call waits already.
    Duplicate,
    /// "connection closed".
    Closed,
}

/// What the dispatcher asks of whoever drives it.
pub enum Action {
    /// Write the event; a failure ends the connection.
    Write(Event),
    /// Write the event; a failure does not matter.
    TryWrite(Event),
    /// Put data into the stream's inbound queue, or `None` to reset it.
    Deliver(u32, Option<Bytes>),
    /// Give the stream, with the number of its flow, to the call that waits for one.
    HandOver(u32, u64),
    /// Tell the call that asks for a stream that it gets none.
    RefuseAccept(AcceptError),
    /// Wake the writer that is parked on the stream.
    Wake(u32, Waker),
}

/// What an action says.
pub enum ActionView {
    Write(EventView),
    TryWrite(EventView),
    Deliver(u32, Option<Seq<u8>>),
    HandOver(u32, u64),
    RefuseAccept(AcceptError),
    Wake(u32, Waker),
}

impl View for Action {
    type V = ActionView;

    open spec fn view(&self) -> ActionView {
        match *self {
            Action::Write(ev) => ActionView::Write(ev@),
            Action::TryWrite(ev) => ActionView::TryWrite(ev@),
            Action::Deliver(sid, data) => ActionView::Deliver(
                sid,
                match data {
                    Some(b) => Some(buf::bytes_of(b)),
                    None => None,
                },
            ),
            Action::HandOver(sid, flow) => ActionView::HandOver(sid, flow),
            Action::RefuseAccept(e) => ActionView::RefuseAccept(e),
            Action::Wake(sid, waker) => ActionView::Wake(sid, waker),
        }
    }
}

pub open spec fn action_views(actions: Seq<Action>) -> Seq<ActionView> {
    Seq::new(actions.len(), |i: int| actions[i]@)
}

/// What a control message came to: what is to be done, in this order, and whether the connection
/// ends.
pub struct Step {
    pub actions: Vec<Action>,
    pub stop: bool,
}

/// The state of a dispatcher.
#[verifier::ext_equal]
pub struct DispatchView {
    /// The window that a new stream starts with, in each direction.
    pub window: u32,
    /// A call waits for a stream that the peer opens.
    pub waiting: bool,
    /// Streams that the peer opened and that nobody has taken yet, oldest first, with the
    /// numbers of their flows.
    pub incoming: Seq<(u32, u64)>,
    pub entries: Map<u32, EntryView>,
    /// The flows of the streams that were opened here and have not joined yet.
    pub opened: Map<u64, FlowView>,
    /// The number that the next flow gets.
    pub next_flow: u64,
}

impl DispatchView {
    /// A connection without streams.
    pub open spec fn empty(window: u32) -> DispatchView {
        DispatchView {
            window,
            waiting: false,
            incoming: Seq::empty(),
            entries: Map::empty(),
            opened: Map::empty(),
            next_flow: 0,
        }
    }

    /// What the peer may still send on a stream, and what waits for the stream's reader or has
    /// not been granted back, make up its window; and no call waits while there is a stream for
    /// it.
    pub open spec fn wf(self) -> bool {
        &&& self.windows_kept()
        &&& self.waiting ==> self.incoming.len() == 0
    }

    pub open spec fn windows_kept(self) -> bool {
        &&& self.entries.dom().finite()
        &&& forall|k: u32| #[trigger]
            self.entries.contains_key(k) ==> self.entries[k].recv_window + self.entries[k].pending
                == self.window
    }

    /// A stream as it starts out.
    pub open spec fn fresh(self, flow_id: u64) -> EntryView {
        EntryView {
            flow_id,
            recv_window: self.window,
            pending: 0,
            receiver_open: true,
            send_window: self.window,
            parked: None,
        }
    }

    pub open spec fn with(self, sid: u32, e: EntryView) -> DispatchView {
        DispatchView { entries: self.entries.insert(sid, e), ..self }
    }

    pub open spec fn without(self, sid: u32) -> DispatchView {
        DispatchView { entries: self.entries.remove(sid), ..self }
    }

    /// The flow that a stream writes through, as long as it is open: that of a stream that has
    /// not joined yet, or that of a stream of the connection.
    pub open spec fn flow_at(self, sid: u32, flow_id: u64) -> Option<FlowView> {
        if self.opened.contains_key(flow_id) {
            Some(self.opened[flow_id])
        } else if self.entries.contains_key(sid) && self.entries[sid].flow_id == flow_id {
            Some(self.entries[sid].flow())
        } else {
            None
        }
    }

    /// The state with another flow in its place.
    pub open spec fn with_flow(self, sid: u32, flow_id: u64, f: FlowView) -> DispatchView {
        if self.opened.contains_key(flow_id) {
            DispatchView { opened: self.opened.insert(flow_id, f), ..self }
        } else {
            self.with(sid, self.entries[sid].with_flow(f))
        }
    }

    /// A stream has been opened here: its flow is there, and may be written through at once.
    pub open spec fn opening(self) -> DispatchView {
        DispatchView {
            opened: self.opened.insert(
                self.next_flow,
                FlowView { send_window: self.window, parked: None },
            ),
            next_flow: self.next_flow.wrapping_add(1),
            ..self
        }
    }

    /// The peer's stream is turned away.
    pub open spec fn refuses(self) -> bool {
        self.incoming.len() >= MAX_PENDING_INCOMING_STREAMS || self.entries.len()
            >= MAX_MUX_STREAMS_PER_CONNECTION
    }
}

/// What a step leaves behind.
#[verifier::ext_equal]
pub struct Dispatched {
    pub state: DispatchView,
    pub actions: Seq<ActionView>,
    pub stop: bool,
}

/// The step that leaves this state and asks for these actions.
pub open spec fn done(state: DispatchView, actions: Seq<ActionView>) -> Dispatched {
    Dispatched { state, actions, stop: false }
}

/// As `done`, but a waiting call gets the oldest stream there is.
pub open spec fn settled(state: DispatchView, actions: Seq<ActionView>) -> Dispatched {
    if state.waiting && state.incoming.len() > 0 {
        done(
            DispatchView { waiting: false, incoming: state.incoming.skip(1), ..state },
            actions.push(ActionView::HandOver(state.incoming[0].0, state.incoming[0].1)),
        )
    } else {
        done(state, actions)
    }
}

pub open spec fn fin(sid: u32) -> EventView {
    event::event_of(FLAG_FIN, sid, Seq::empty())
}

/// A writer that is parked on the stream is woken.
pub open spec fn wakes(sid: u32, e: EntryView) -> Seq<ActionView> {
    match e.parked {
        Some(waker) => seq![ActionView::Wake(sid, waker)],
        None => seq![],
    }
}

/// A stream that joins. One that was opened here brings its flow with it, as it is by now; where
/// its id is in use it stays outside.
pub open spec fn dispatch_new(s: DispatchView, p: NewStreamParams) -> Dispatched {
    let sid = p.stream_id;
    if p.flow is None && s.refuses() {
        done(s, seq![ActionView::TryWrite(fin(sid))])
    } else if s.entries.contains_key(sid) {
        settled(s, seq![])
    } else {
        match p.flow {
            None => {
                let t = s.with(sid, s.fresh(s.next_flow));
                settled(
                    DispatchView {
                        incoming: s.incoming.push((sid, s.next_flow)),
                        next_flow: s.next_flow.wrapping_add(1),
                        ..t
                    },
                    seq![],
                )
            },
            Some(flow_id) => {
                let e = s.fresh(flow_id);
                let t = if s.opened.contains_key(flow_id) {
                    DispatchView { opened: s.opened.remove(flow_id), ..s }.with(
                        sid,
                        e.with_flow(s.opened[flow_id]),
                    )
                } else {
                    s.with(sid, e)
                };
                settled(
                    t,
                    seq![ActionView::Write(event::event_of(FLAG_SYN, sid, Seq::empty()))],
                )
            },
        }
    }
}

/// Data from the peer: more than the window closes the stream, and data that nobody reads any
/// more takes it off.
pub open spec fn dispatch_data(s: DispatchView, sid: u32, data: Seq<u8>) -> Dispatched {
    if !s.entries.contains_key(sid) {
        settled(s, seq![])
    } else {
        let e = s.entries[sid];
        if data.len() > e.recv_window {
            settled(
                s.without(sid),
                wakes(sid, e).push(ActionView::Deliver(sid, None)).push(
                    ActionView::TryWrite(fin(sid)),
                ),
            )
        } else if e.receiver_open {
            let t = EntryView {
                recv_window: (e.recv_window - data.len()) as u32,
                pending: (e.pending + data.len()) as u64,
                ..e
            };
            settled(s.with(sid, t), seq![ActionView::Deliver(sid, Some(data))])
        } else {
            settled(s.without(sid), wakes(sid, e))
        }
    }
}

/// What the dispatcher does with a control message.
pub open spec fn dispatch(s: DispatchView, c: ControlView) -> Dispatched {
    match c {
        ControlView::AcceptStream => if s.waiting {
            done(s, seq![ActionView::RefuseAccept(AcceptError::Duplicate)])
        } else {
            settled(DispatchView { waiting: true, ..s }, seq![])
        },
        ControlView::NewStream(p) => dispatch_new(s, p),
        ControlView::StreamData(sid, data, incoming) => if incoming {
            dispatch_data(s, sid, data)
        } else {
            settled(s, seq![ActionView::Write(event::event_of(FLAG_DATA, sid, data))])
        },
        ControlView::WindowUpdateFromPeer(sid, inc) => if s.entries.contains_key(sid) {
            let e = s.entries[sid];
            let t = EntryView {
                send_window: e.send_window.wrapping_add(inc),
                parked: None,
                ..e
            };
            settled(s.with(sid, t), wakes(sid, e))
        } else {
            settled(s, seq![])
        },
        ControlView::StreamShutdown(sid, remote) => if !s.entries.contains_key(sid) {
            settled(s, seq![])
        } else if remote {
            settled(s, seq![ActionView::Deliver(sid, Some(Seq::empty()))])
        } else {
            settled(s, seq![ActionView::Write(event::event_of(FLAG_SHUTDOWN, sid, Seq::empty()))])
        },
        ControlView::StreamClose(sid, remote) => if !s.entries.contains_key(sid) {
            settled(s, seq![])
        } else if remote {
            settled(
                s.without(sid),
                wakes(sid, s.entries[sid]).push(ActionView::Deliver(sid, None)),
            )
        } else {
            settled(
                s.without(sid),
                wakes(sid, s.entries[sid]).push(ActionView::TryWrite(fin(sid))),
            )
        },
        ControlView::Ping(nonce) => settled(
            s,
            seq![ActionView::Write(event::event_of(FLAG_PING, 0, codec::le32(nonce)))],
        ),
        ControlView::Pong(nonce) => settled(
            s,
            seq![ActionView::Write(event::event_of(FLAG_PONG, 0, codec::le32(nonce)))],
        ),
        ControlView::Close => Dispatched { state: s, actions: seq![], stop: true },
    }
}

/// The entry of a stream that joins.
fn new_entry(flow_id: u64, flow: StreamFlow, window: u32) -> (r: StreamEntry)
    ensures
        r == (StreamEntry {
            flow_id,
            recv_window: window,
            flow,
            pending_bytes: 0,
            receiver_open: true,
        }),
{
    StreamEntry { flow_id, recv_window: window, flow, pending_bytes: 0, receiver_open: true }
}

/// The streams of a connection, and who waits for one.
pub struct Dispatcher {
    initial_stream_window: u32,
    incoming_streams: VecDeque<(u32, u64)>,
    accept_waiting: bool,
    stream_entries: HashMap<u32, StreamEntry>,
    active_stream_count: usize,
    opened_flows: HashMap<u64, StreamFlow>,
    next_flow: u64,
}

spec fn flow_views(m: Map<u64, StreamFlow>) -> Map<u64, FlowView> {
    Map::new(|k: u64| m.contains_key(k), |k: u64| flow_view(m[k]))
}

spec fn entry_views(m: Map<u32, StreamEntry>) -> Map<u32, EntryView> {
    Map::new(|k: u32| m.contains_key(k), |k: u32| m[k]@)
}

impl View for Dispatcher {
    type V = DispatchView;

    closed spec fn view(&self) -> DispatchView {
        DispatchView {
            window: self.initial_stream_window,
            waiting: self.accept_waiting,
            incoming: self.incoming_streams@,
            entries: entry_views(self.stream_entries@),
            opened: flow_views(self.opened_flows@),
            next_flow: self.next_flow,
        }
    }
}

impl Dispatcher {
    /// The state is sound, the count is that of the streams, and every stream's flow is open.
    pub open spec fn wf(self) -> bool {
        self.tables_agree() && self@.wf()
    }

    pub closed spec fn tables_agree(self) -> bool {
        &&& self@.windows_kept()
        &&& self.active_stream_count == self.stream_entries@.len()
        &&& self@.entries.len() == self.stream_entries@.len()
        &&& forall|k: u32| #[trigger]
            self.stream_entries@.contains_key(k) ==> !self.stream_entries@[k].flow.shut()
        &&& forall|k: u64| #[trigger]
            self.opened_flows@.contains_key(k) ==> !self.opened_flows@[k].shut()
    }

    pub fn new(initial_stream_window: u32) -> (r: Dispatcher)
        ensures
            r.wf(),
            r@ == DispatchView::empty(initial_stream_window),
    {
        let r = Dispatcher {
            initial_stream_window,
            incoming_streams: VecDeque::new(),
            accept_waiting: false,
            stream_entries: HashMap::new(),
            active_stream_count: 0,
            opened_flows: HashMap::new(),
            next_flow: 0,
        };
        assert(r@.entries =~= Map::<u32, EntryView>::empty());
        assert(r@.opened =~= Map::<u64, FlowView>::empty());
        assert(r@.incoming =~= Seq::<(u32, u64)>::empty());
        r
    }

    pub fn active_stream_count(&self) -> (n: usize)
        requires
            self.wf(),
        ensures
            n == self@.entries.len(),
    {
        self.active_stream_count
    }

    /// Takes a stream's entry out.
    fn take(&mut self, sid: u32) -> (r: Option<StreamEntry>)
        requires
            old(self).tables_agree(),
        ensures
            final(self).tables_agree(),
            final(self)@ == old(self)@.without(sid),
            match r {
                Some(e) => {
                    &&& old(self)@.entries.contains_key(sid)
                    &&& e@ == old(self)@.entries[sid]
                    &&& !e.flow.shut()
                },
                None => !old(self)@.entries.contains_key(sid) && final(self)@ == old(self)@,
            },
    {
        let ghost pre = *self;
        let r = self.stream_entries.remove(&sid);
        if r.is_some() {
            let _left: usize = self.stream_entries.len();
            self.active_stream_count = self.active_stream_count - 1;
        }
        proof {
            assert(self@.entries =~= pre@.entries.remove(sid));
            if r is None {
                assert(self@.entries =~= pre@.entries);
            }
        }
        r
    }

    /// Puts a stream's entry in where there is none.
    fn put(&mut self, sid: u32, e: StreamEntry)
        requires
            old(self).tables_agree(),
            !old(self)@.entries.contains_key(sid),
            !e.flow.shut(),
            e.recv_window + e.pending_bytes == old(self)@.window,
        ensures
            final(self).tables_agree(),
            final(self)@ == old(self)@.with(sid, e@),
    {
        let ghost pre = *self;
        self.stream_entries.insert(sid, e);
        let _now: usize = self.stream_entries.len();
        self.active_stream_count = self.active_stream_count + 1;
        assert(self@.entries =~= pre@.entries.insert(sid, e@));
    }

    /// Gives the oldest stream to a call that waits for one.
    fn settle(&mut self, actions: Vec<Action>) -> (step: Step)
        requires
            old(self).tables_agree(),
        ensures
            final(self).tables_agree(),
            final(self)@ == settled(old(self)@, action_views(actions@)).state,
            action_views(step.actions@) == settled(old(self)@, action_views(actions@)).actions,
            !step.stop,
    {
        let ghost pre = self@;
        let mut actions = actions;
        let ghost given = actions@;
        if self.accept_waiting && self.incoming_streams.len() > 0 {
            if let Some((sid, flow_id)) = self.incoming_streams.pop_front() {
                self.accept_waiting = false;
                actions.push(Action::HandOver(sid, flow_id));
                proof {
                    assert(self@.incoming =~= pre.incoming.skip(1));
                    assert(action_views(actions@) =~= action_views(given).push(
                        ActionView::HandOver(pre.incoming[0].0, pre.incoming[0].1),
                    ));
                }
            }
        }
        Step { actions, stop: false }
    }

    fn on_new_stream(&mut self, p: NewStreamParams) -> (step: Step)
        requires
            old(self).wf(),
        ensures
            final(self).tables_agree(),
            is_step(dispatch_new(old(self)@, p), final(self)@, step),
    {
        let ghost pre = self@;
        let sid: u32 = p.stream_id;
        if p.flow.is_none() {
            let reason = incoming_stream_rejection_reason(
                self.incoming_streams.len(),
                self.stream_entries.len(),
            );
            if reason.is_some() {
                let actions = one(Action::TryWrite(new_fin_event(sid)));
                return Step { actions, stop: false };
            }
        }
        if self.stream_entries.contains_key(&sid) {
            return self.settle(none());
        }
        let window: u32 = self.initial_stream_window;
        match p.flow {
            None => {
                let flow_id: u64 = self.next_flow;
                self.next_flow = self.next_flow.wrapping_add(1);
                self.put(sid, new_entry(flow_id, StreamFlow::new(window), window));
                self.incoming_streams.push_back((sid, flow_id));
                self.settle(none())
            },
            Some(flow_id) => {
                let flow = match self.opened_flows.remove(&flow_id) {
                    Some(flow) => flow,
                    None => StreamFlow::new(window),
                };
                assert(self@.opened =~= pre.opened.remove(flow_id));
                assert(!pre.opened.contains_key(flow_id) ==> self@.opened =~= pre.opened);
                self.put(sid, new_entry(flow_id, flow, window));
                self.settle(one(Action::Write(new_syn_event(sid))))
            },
        }
    }

    fn on_peer_data(&mut self, sid: u32, data: Bytes) -> (step: Step)
        requires
            old(self).wf(),
            buf::bytes_of(data).len() <= MAX_EVENT_BODY_LEN,
        ensures
            final(self).tables_agree(),
            is_step(dispatch_data(old(self)@, sid, buf::bytes_of(data)), final(self)@, step),
    {
        let ghost pre = self@;
        if let Some(entry) = self.take(sid) {
            let mut entry = entry;
            let data_len: u32 = bytes_len(&data) as u32;
            if data_len > entry.recv_window {
                let woken = wakeup(sid, entry.flow.end());
                let reset = also(woken, Action::Deliver(sid, None));
                self.settle(also(reset, Action::TryWrite(new_fin_event(sid))))
            } else if entry.receiver_open {
                entry.recv_window = entry.recv_window - data_len;
                entry.pending_bytes = entry.pending_bytes + data_len as u64;
                proof {
                    assert(self@.with(sid, entry@).entries =~= pre.with(sid, entry@).entries);
                }
                self.put(sid, entry);
                self.settle(one(Action::Deliver(sid, Some(data))))
            } else {
                let woken = wakeup(sid, entry.flow.end());
                self.settle(woken)
            }
        } else {
            self.settle(none())
        }
    }

    fn on_peer_grant(&mut self, sid: u32, increment: u32) -> (step: Step)
        requires
            old(self).wf(),
        ensures
            final(self).tables_agree(),
            is_step(
                dispatch(old(self)@, ControlView::WindowUpdateFromPeer(sid, increment)),
                final(self)@,
                step,
            ),
    {
        let ghost pre = self@;
        if let Some(entry) = self.take(sid) {
            let mut entry = entry;
            let woken = wakeup(sid, entry.flow.grant(increment));
            proof {
                assert(self@.with(sid, entry@).entries =~= pre.with(sid, entry@).entries);
            }
            self.put(sid, entry);
            self.settle(woken)
        } else {
            self.settle(none())
        }
    }

    fn on_close(&mut self, sid: u32, remote: bool) -> (step: Step)
        requires
            old(self).wf(),
        ensures
            final(self).tables_agree(),
            is_step(
                dispatch(old(self)@, ControlView::StreamClose(sid, remote)),
                final(self)@,
                step,
            ),
    {
        if let Some(entry) = self.take(sid) {
            let mut flow = entry.flow;
            let woken = wakeup(sid, flow.end());
            if remote {
                self.settle(also(woken, Action::Deliver(sid, None)))
            } else {
                self.settle(also(woken, Action::TryWrite(new_fin_event(sid))))
            }
        } else {
            self.settle(none())
        }
    }

    /// Acts on a control message.
    pub fn step(&mut self, ctrl: Control) -> (step: Step)
        requires
            old(self).wf(),
            ctrl matches Control::StreamData(_, data, true) ==> buf::bytes_of(data).len()
                <= MAX_EVENT_BODY_LEN,
        ensures
            final(self).wf(),
            is_step(dispatch(old(self)@, ctrl@), final(self)@, step),
    {
        match ctrl {
            Control::AcceptStream => {
                if self.accept_waiting {
                    let actions = one(Action::RefuseAccept(AcceptError::Duplicate));
                    return Step { actions, stop: false };
                }
                self.accept_waiting = true;
                self.settle(none())
            },
            Control::NewStream(p) => self.on_new_stream(p),
            Control::StreamData(sid, data, incoming) => {
                if incoming {
                    self.on_peer_data(sid, data)
                } else {
                    self.settle(one(Action::Write(new_data_event(sid, data))))
                }
            },
            Control::WindowUpdateFromPeer(sid, increment) => self.on_peer_grant(sid, increment),
            Control::StreamShutdown(sid, remote) => {
                if !self.stream_entries.contains_key(&sid) {
                    self.settle(none())
                } else if remote {
                    let eof = bytes_new();
                    self.settle(one(Action::Deliver(sid, Some(eof))))
                } else {
                    self.settle(one(Action::Write(new_shutdown_event(sid))))
                }
            },
            Control::StreamClose(sid, remote) => self.on_close(sid, remote),
            Control::Ping(nonce) => self.settle(one(Action::Write(new_nonce_ping_event(nonce)))),
            Control::Pong(nonce) => self.settle(one(Action::Write(new_pong_event(nonce)))),
            Control::Close => {
                let actions = none();
                Step { actions, stop: true }
            },
        }
    }
}

impl Dispatcher {
    /// Grants the peer what the stream's reader has read, and gives the event that says so.
    pub fn apply_window_update(&mut self, sid: u32, increment: u32) -> (r: Option<Event>)
        requires
            old(self).wf(),
        ensures
            final(self).wf(),
            final(self)@ == granted(old(self)@, sid, increment),
            match r {
                Some(ev) => old(self)@.entries.contains_key(sid) && ev@ == event::event_of(
                    FLAG_WIN_UPDATE,
                    sid,
                    codec::le32(increment),
                ),
                None => !old(self)@.entries.contains_key(sid),
            },
    {
        let ghost pre = self@;
        if let Some(entry) = self.take(sid) {
            let mut entry = entry;
            entry.pending_bytes = entry.pending_bytes.saturating_sub(increment as u64);
            let grown: u32 = entry.recv_window.saturating_add(increment);
            entry.recv_window = if grown <= self.initial_stream_window {
                grown
            } else {
                self.initial_stream_window
            };
            proof {
                assert(self@.with(sid, entry@).entries =~= pre.with(sid, entry@).entries);
            }
            self.put(sid, entry);
            Some(new_window_update_event(sid, increment))
        } else {
            None
        }
    }

    /// The number of the flow of a stream of the connection.
    pub fn flow_of(&self, sid: u32) -> (r: Option<u64>)
        ensures
            r == if self@.entries.contains_key(sid) {
                Some(self@.entries[sid].flow_id)
            } else {
                None
            },
    {
        match self.stream_entries.get(&sid) {
            Some(entry) => Some(entry.flow_id),
            None => None,
        }
    }

    /// Takes note that nobody reads the stream any more.
    pub fn receiver_dropped(&mut self, sid: u32, flow_id: u64)
        requires
            old(self).wf(),
        ensures
            final(self).wf(),
            final(self)@ == if old(self)@.entries.contains_key(sid)
                && old(self)@.entries[sid].flow_id == flow_id {
                old(self)@.with(
                    sid,
                    EntryView { receiver_open: false, ..old(self)@.entries[sid] },
                )
            } else {
                old(self)@
            },
    {
        let ghost pre = self@;
        if let Some(entry) = self.take(sid) {
            let mut entry = entry;
            if entry.flow_id == flow_id {
                entry.receiver_open = false;
            }
            proof {
                assert(self@.with(sid, entry@).entries =~= pre.with(sid, entry@).entries);
                assert(pre.with(sid, pre.entries[sid]).entries =~= pre.entries);
            }
            self.put(sid, entry);
        }
    }

    /// The regular sweep: takes off the streams that nobody reads and those that are stuck, and
    /// gives the ids of the latter, for the peer to be told, and the writers to be woken. As long as
    /// the windows are kept no stream gets stuck.
    pub fn tick(&mut self) -> (r: (Vec<u32>, Vec<Wakeup>))
        requires
            old(self).wf(),
        ensures
            final(self).wf(),
            final(self)@ == (DispatchView { entries: still_read(old(self)@.entries), ..old(self)@ }),
            r.0@.len() == 0,
            wakes_of(r.1@, old(self)@.entries, |e: EntryView| !e.receiver_open),
    {
        let ghost pre = *self;
        let (_reaped, woken) = reap_closed_stream_entries(
            &mut self.stream_entries,
            &mut self.active_stream_count,
        );
        let ghost mid = *self;
        proof {
            assert(mid@.entries =~= still_read(pre@.entries));
            assert forall|k: u32| mid.stream_entries@.contains_key(k) implies mid.stream_entries@[k].pending_bytes
                <= backlog_cap(pre.initial_stream_window) by {
                assert(pre@.entries.contains_key(k));
            }
        }
        let (stalled, _) = drain_backlog_capped_streams(
            &mut self.stream_entries,
            &mut self.active_stream_count,
            self.initial_stream_window,
        );
        proof {
            if stalled@.len() > 0 {
                assert(stalled@.contains(stalled@[0]));
            }
            assert(self@.entries =~= mid@.entries);
            assert(self@.entries.dom() =~= self.stream_entries@.dom());
            let gone = pre.stream_entries@.dom().difference(mid.stream_entries@.dom());
            assert forall|k: u32| #[trigger] woken_ids(woken@).contains(k) <==> pre@.entries.contains_key(k)
                && pre@.entries[k].parked is Some && !pre@.entries[k].receiver_open by {
                assert(pre.stream_entries@.contains_key(k) <==> pre@.entries.contains_key(k));
                assert(gone.contains(k) <==> pre.stream_entries@.contains_key(k)
                    && !mid.stream_entries@.contains_key(k));
            }
            assert forall|i: int| 0 <= i < woken@.len() implies pre@.entries[(
            #[trigger] woken@[i]).0].parked == Some(woken@[i].1) by {
                assert(woken_ids(woken@)[i] == woken@[i].0);
                assert(woken_ids(woken@).contains(woken@[i].0));
                assert(pre.stream_entries@.contains_key(woken@[i].0));
            }
        }
        (stalled, woken)
    }

    /// Ends the connection: gives the streams whose queues are to be reset, in no particular
    /// order, what a waiting call is told, and the writers to be woken.
    pub fn teardown(&mut self) -> (r: (Vec<u32>, Option<AcceptError>, Vec<Wakeup>))
        requires
            old(self).wf(),
        ensures
            final(self).wf(),
            tears_down(old(self)@, final(self)@, r.0@, r.1, r.2@),
    {
        let ghost pre = *self;
        let ids = stream_ids(&self.stream_entries);
        let woken = remove_streams(&mut self.stream_entries, &ids);
        self.active_stream_count = 0;
        let refused = if self.accept_waiting {
            Some(AcceptError::Closed)
        } else {
            None
        };
        self.accept_waiting = false;
        proof {
            assert(self.stream_entries@ =~= Map::<u32, StreamEntry>::empty());
            assert(self@.entries =~= Map::<u32, EntryView>::empty());
            assert forall|k: u32| #[trigger] woken_ids(woken@).contains(k) <==> pre@.entries.contains_key(k)
                && pre@.entries[k].parked is Some by {
                assert(pre.stream_entries@.contains_key(k) <==> pre@.entries.contains_key(k));
                assert(ids@.to_set().contains(k) <==> ids@.contains(k));
            }
            assert forall|i: int| 0 <= i < woken@.len() implies pre@.entries[(
            #[trigger] woken@[i]).0].parked == Some(woken@[i].1) by {
                assert(woken_ids(woken@)[i] == woken@[i].0);
                assert(woken_ids(woken@).contains(woken@[i].0));
                assert(pre.stream_entries@.contains_key(woken@[i].0));
            }
        }
        (ids, refused, woken)
    }
}

/// The wakeups are for the streams of the kind, once each, whose writers are parked.
pub open spec fn wakes_of(
    wakeups: Seq<Wakeup>,
    entries: Map<u32, EntryView>,
    kind: spec_fn(EntryView) -> bool,
) -> bool {
    &&& woken_ids(wakeups).no_duplicates()
    &&& forall|k: u32| #[trigger]
        woken_ids(wakeups).contains(k) <==> entries.contains_key(k) && entries[k].parked is Some
            && kind(entries[k])
    &&& forall|i: int|
        0 <= i < wakeups.len() ==> entries[(#[trigger] wakeups[i]).0].parked == Some(wakeups[i].1)
}

/// The end of a connection: its streams are all gone, a waiting call is told, and parked writers
/// are woken.
pub open spec fn tears_down(
    pre: DispatchView,
    post: DispatchView,
    reset: Seq<u32>,
    told: Option<AcceptError>,
    wakeups: Seq<Wakeup>,
) -> bool {
    &&& post == (DispatchView { waiting: false, entries: Map::empty(), ..pre })
    &&& reset.no_duplicates()
    &&& forall|k: u32| #[trigger] reset.contains(k) <==> pre.entries.contains_key(k)
    &&& told == if pre.waiting {
        Some(AcceptError::Closed)
    } else {
        None
    }
    &&& wakes_of(wakeups, pre.entries, |e: EntryView| true)
}

/// How many bytes of `len` a write through a flow sends: none where the window has to grow first or
/// the control queue is full or gone, else what the window allows.
pub open spec fn sendable(f: FlowView, len: nat, whole: bool, reserve: Reserve) -> int {
    if reserve != Reserve::Ready || (whole && f.send_window < len) {
        0
    } else if len <= f.send_window {
        len as int
    } else {
        f.send_window as int
    }
}

/// The writer has to wait: for window, or for the control queue.
pub open spec fn must_wait(f: FlowView, len: nat, whole: bool, reserve: Reserve) -> bool {
    len > 0 && (f.send_window == 0 || (whole && f.send_window < len) || reserve
        == Reserve::Pending)
}

/// What a write through a flow comes to: the window decides, then the control queue.
pub open spec fn is_write_step(
    f: FlowView,
    data: Seq<u8>,
    whole: bool,
    reserve: Reserve,
    step: WriteStep,
) -> bool {
    if data.len() == 0 {
        step is Nothing
    } else if must_wait(f, data.len(), whole, reserve) {
        step is Pending
    } else if reserve == Reserve::Failed {
        step is Failed
    } else {
        step is Send && buf::bytes_of(step->Send_0) == data.take(
            sendable(f, data.len(), whole, reserve),
        )
    }
}

/// The flow after the write: a writer that has to wait is parked.
pub open spec fn after_write(
    f: FlowView,
    data: Seq<u8>,
    whole: bool,
    waker: Waker,
    reserve: Reserve,
) -> FlowView {
    FlowView {
        send_window: (f.send_window - sendable(f, data.len(), whole, reserve)) as u32,
        parked: if must_wait(f, data.len(), whole, reserve) {
            Some(stream::registered(f.parked, waker))
        } else {
            f.parked
        },
    }
}

/// What a write on a stream comes to: a stream that was opened here may be written at once,
/// before it has joined the connection; one that is off the connection is closed.
pub open spec fn is_write(
    pre: DispatchView,
    post: DispatchView,
    stream: StreamView,
    data: Seq<u8>,
    whole: bool,
    waker: Waker,
    reserve: Reserve,
    step: WriteStep,
) -> bool {
    match pre.flow_at(stream.id, stream.flow) {
        Some(f) if !stream.reset => {
            &&& is_write_step(f, data, whole, reserve, step)
            &&& post == pre.with_flow(
                stream.id,
                stream.flow,
                after_write(f, data, whole, waker, reserve),
            )
        },
        _ => step is Closed && post == pre,
    }
}

impl Dispatcher {
    /// The flow of a stream that is opened here; gives its number.
    fn open_flow(&mut self) -> (r: u64)
        requires
            old(self).wf(),
        ensures
            final(self).wf(),
            final(self)@ == old(self)@.opening(),
            r == old(self)@.next_flow,
    {
        let ghost pre = self@;
        let flow_id: u64 = self.next_flow;
        self.next_flow = self.next_flow.wrapping_add(1);
        self.opened_flows.insert(flow_id, StreamFlow::new(self.initial_stream_window));
        assert(self@.opened =~= pre.opening().opened);
        assert(self@.entries =~= pre.entries);
        flow_id
    }

    /// Takes out the flow that a stream writes through, with the rest of the stream's entry where
    /// it has one.
    fn take_flow(&mut self, stream: &MuxStream) -> (r: Option<TakenFlow>)
        requires
            old(self).tables_agree(),
        ensures
            final(self).tables_agree(),
            match r {
                Some(TakenFlow::Opened(flow)) => {
                    &&& old(self)@.opened.contains_key(stream@.flow)
                    &&& flow_view(flow) == old(self)@.opened[stream@.flow]
                    &&& !flow.shut()
                    &&& final(self)@ == (DispatchView {
                        opened: old(self)@.opened.remove(stream@.flow),
                        ..old(self)@
                    })
                },
                Some(TakenFlow::Joined(e)) => {
                    &&& !old(self)@.opened.contains_key(stream@.flow)
                    &&& old(self)@.entries.contains_key(stream@.id)
                    &&& old(self)@.entries[stream@.id].flow_id == stream@.flow
                    &&& e@ == old(self)@.entries[stream@.id]
                    &&& !e.flow.shut()
                    &&& final(self)@ == old(self)@.without(stream@.id)
                },
                None => old(self)@.flow_at(stream@.id, stream@.flow) is None && final(self)@
                    == old(self)@,
            },
    {
        let ghost pre = self@;
        if let Some(flow) = self.opened_flows.remove(&stream.flow()) {
            assert(self@.opened =~= pre.opened.remove(stream@.flow));
            assert(self@.entries =~= pre.entries);
            return Some(TakenFlow::Opened(flow));
        }
        assert(self@.opened =~= pre.opened);
        let sid: u32 = stream.id();
        match self.take(sid) {
            Some(entry) => {
                if entry.flow_id == stream.flow() {
                    return Some(TakenFlow::Joined(entry));
                }
                assert(self@.with(sid, entry@).entries =~= pre.entries);
                self.put(sid, entry);
                None
            },
            None => None,
        }
    }

    /// Puts a flow back that `take_flow` has taken out.
    fn put_flow(&mut self, stream: &MuxStream, taken: TakenFlow)
        requires
            old(self).tables_agree(),
            match taken {
                TakenFlow::Opened(flow) => !flow.shut(),
                TakenFlow::Joined(e) => {
                    &&& !old(self)@.entries.contains_key(stream@.id)
                    &&& !e.flow.shut()
                    &&& e.recv_window + e.pending_bytes == old(self)@.window
                },
            },
        ensures
            final(self).tables_agree(),
            final(self)@ == match taken {
                TakenFlow::Opened(flow) => DispatchView {
                    opened: old(self)@.opened.insert(stream@.flow, flow_view(flow)),
                    ..old(self)@
                },
                TakenFlow::Joined(e) => old(self)@.with(stream@.id, e@),
            },
    {
        let ghost pre = self@;
        match taken {
            TakenFlow::Opened(flow) => {
                self.opened_flows.insert(stream.flow(), flow);
                assert(self@.opened =~= pre.opened.insert(stream@.flow, flow_view(flow)));
                assert(self@.entries =~= pre.entries);
            },
            TakenFlow::Joined(entry) => self.put(stream.id(), entry),
        }
    }

    /// Writes as much of `buf` as the stream's window allows.
    pub fn write(&mut self, stream: &MuxStream, waker: &Waker, buf: &[u8], reserve: Reserve) -> (step:
        WriteStep)
        requires
            old(self).wf(),
        ensures
            final(self).wf(),
            is_write(old(self)@, final(self)@, stream@, buf@, false, *waker, reserve, step),
    {
        let ghost pre = self@;
        match self.take_flow(stream) {
            Some(taken) => {
                let mut taken = taken;
                let step = match &mut taken {
                    TakenFlow::Opened(flow) => stream.poll_write(flow, waker, buf, reserve),
                    TakenFlow::Joined(entry) => stream.poll_write(
                        &mut entry.flow,
                        waker,
                        buf,
                        reserve,
                    ),
                };
                proof {
                    lemma_put_back(pre, stream@.id, stream@.flow, taken.flow_view());
                    lemma_put_back(
                        pre,
                        stream@.id,
                        stream@.flow,
                        pre.flow_at(stream@.id, stream@.flow)->Some_0,
                    );
                }
                self.put_flow(stream, taken);
                step
            },
            None => WriteStep::Closed,
        }
    }

    /// Writes all of `data`, or waits until the stream's window covers it.
    pub fn write_bytes(&mut self, stream: &MuxStream, waker: &Waker, data: Bytes, reserve: Reserve) -> (step:
        WriteStep)
        requires
            old(self).wf(),
            buf::bytes_of(data).len() <= u32::MAX,
        ensures
            final(self).wf(),
            is_write(
                old(self)@,
                final(self)@,
                stream@,
                buf::bytes_of(data),
                true,
                *waker,
                reserve,
                step,
            ),
    {
        let ghost pre = self@;
        match self.take_flow(stream) {
            Some(taken) => {
                let mut taken = taken;
                let ghost all = buf::bytes_of(data);
                let step = match &mut taken {
                    TakenFlow::Opened(flow) => stream.poll_write_bytes(flow, waker, data, reserve),
                    TakenFlow::Joined(entry) => stream.poll_write_bytes(
                        &mut entry.flow,
                        waker,
                        data,
                        reserve,
                    ),
                };
                proof {
                    assert(all.take(all.len() as int) =~= all);
                    lemma_put_back(pre, stream@.id, stream@.flow, taken.flow_view());
                    lemma_put_back(
                        pre,
                        stream@.id,
                        stream@.flow,
                        pre.flow_at(stream@.id, stream@.flow)->Some_0,
                    );
                }
                self.put_flow(stream, taken);
                step
            },
            None => WriteStep::Closed,
        }
    }
}

/// A flow that has been taken out of its table.
enum TakenFlow {
    Opened(StreamFlow),
    Joined(StreamEntry),
}

impl TakenFlow {
    spec fn flow_view(self) -> FlowView {
        match self {
            TakenFlow::Opened(flow) => flow_view(flow),
            TakenFlow::Joined(e) => e@.flow(),
        }
    }
}

/// A flow that was taken out and is put back is in its place.
proof fn lemma_put_back(s: DispatchView, sid: u32, flow_id: u64, f: FlowView)
    requires
        s.flow_at(sid, flow_id) is Some,
    ensures
        s.opened.contains_key(flow_id) ==> s.opened.remove(flow_id).insert(flow_id, f)
            == s.opened.insert(flow_id, f),
        !s.opened.contains_key(flow_id) ==> s.without(sid).with(
            sid,
            s.entries[sid].with_flow(f),
        ) == s.with(sid, s.entries[sid].with_flow(f)),
        f == s.flow_at(sid, flow_id)->Some_0 ==> s.with_flow(sid, flow_id, f) == s,
{
    assert(s.opened.remove(flow_id).insert(flow_id, f) =~= s.opened.insert(flow_id, f));
    assert(s.without(sid).with(sid, s.entries[sid].with_flow(f)).entries =~= s.with(
        sid,
        s.entries[sid].with_flow(f),
    ).entries);
    if f == s.flow_at(sid, flow_id)->Some_0 {
        if s.opened.contains_key(flow_id) {
            assert(s.opened.insert(flow_id, f) =~= s.opened);
        } else {
            assert(s.entries[sid].with_flow(f) == s.entries[sid]);
            assert(s.entries.insert(sid, s.entries[sid]) =~= s.entries);
        }
    }
}

/// The state after the stream's reader has made room for `increment` more bytes.
pub open spec fn granted(s: DispatchView, sid: u32, increment: u32) -> DispatchView {
    if s.entries.contains_key(sid) {
        let e = s.entries[sid];
        s.with(
            sid,
            EntryView {
                pending: if e.pending >= increment {
                    (e.pending - increment) as u64
                } else {
                    0
                },
                recv_window: if e.recv_window + increment <= s.window {
                    (e.recv_window + increment) as u32
                } else {
                    s.window
                },
                ..e
            },
        )
    } else {
        s
    }
}

/// The streams that are still read.
pub open spec fn still_read(entries: Map<u32, EntryView>) -> Map<u32, EntryView> {
    entries.restrict(Set::new(|k: u32| entries.contains_key(k) && entries[k].receiver_open))
}

/// The step is the one that the model gives.
pub open spec fn is_step(d: Dispatched, post: DispatchView, step: Step) -> bool {
    &&& post == d.state
    &&& action_views(step.actions@) == d.actions
    &&& step.stop == d.stop
}

fn none() -> (r: Vec<Action>)
    ensures
        action_views(r@) == Seq::<ActionView>::empty(),
        r@.len() == 0,
{
    let r: Vec<Action> = Vec::new();
    assert(action_views(r@) =~= Seq::<ActionView>::empty());
    r
}

fn one(a: Action) -> (r: Vec<Action>)
    ensures
        action_views(r@) == seq![a@],
{
    let mut r: Vec<Action> = Vec::new();
    r.push(a);
    assert(action_views(r@) =~= seq![a@]);
    r
}

/// The actions, and one more.
fn also(actions: Vec<Action>, a: Action) -> (r: Vec<Action>)
    ensures
        action_views(r@) == action_views(actions@).push(a@),
{
    let mut r = actions;
    let ghost before = r@;
    r.push(a);
    assert(action_views(r@) =~= action_views(before).push(a@));
    r
}

/// Waking the writer of a stream, where one was parked.
fn wakeup(sid: u32, waker: Option<Waker>) -> (r: Vec<Action>)
    ensures
        action_views(r@) == match waker {
            Some(w) => seq![ActionView::Wake(sid, w)],
            None => Seq::<ActionView>::empty(),
        },
{
    match waker {
        Some(w) => one(Action::Wake(sid, w)),
        None => none(),
    }
}

/// Which side of the connection this is.
#[derive(Debug, PartialEq, Eq, Structural, Clone, Copy)]
pub enum Mode {
    Server,
    Client,
}

/// Why a ping failed.
#[derive(Debug)]
pub enum PingError {
    /// No pong came within this many seconds; the link may only be slow.
    Timeout(u64),
    /// The dispatcher is gone.
    Dead(&'static str),
}

impl PingError {
    /// Whether the connection can never recover.
    pub fn is_fatal(&self) -> (r: bool)
        ensures
            r == (self is Dead),
    {
        matches!(self, PingError::Dead(_))
    }

    pub fn message(&self) -> (r: String)
        ensures
            r@ == match *self {
                PingError::Timeout(secs) => "ping timeout after "@ + text::digits(secs as nat) + "s"@,
                PingError::Dead(reason) => reason@,
            },
    {
        match self {
            PingError::Timeout(secs) => {
                let mut s: String = "ping timeout after ".to_owned();
                s.push_str(decimal(*secs).as_str());
                s.push_str("s");
                s
            },
            PingError::Dead(reason) => (*reason).to_owned(),
        }
    }
}

/// How a ping begins.
#[derive(Debug, PartialEq, Eq, Structural, Clone, Copy)]
pub enum PingStart {
    /// Streams are active, which proves the link alive: no ping is needed.
    Alive,
    /// Send a ping with this nonce.
    Send(u32),
}

/// What waiting for a pong gave.
#[derive(Debug, PartialEq, Eq, Structural, Clone, Copy)]
pub enum PongPoll {
    /// A pong with this nonce.
    Pong(u32),
    /// The dispatcher is gone.
    Gone,
    /// The time is up.
    TimedOut,
}

/// A multiplexed connection: its dispatcher, and the ids and nonces that it gives out.
pub struct Connection {
    conn_id: u32,
    mode: Mode,
    stream_id_seed: u32,
    ping_nonce_seed: u32,
    dispatcher: Dispatcher,
}

/// The state of a connection.
#[verifier::ext_equal]
pub struct ConnectionView {
    pub conn_id: u32,
    pub mode: Mode,
    /// The id that the next stream opened here gets.
    pub next_stream: u32,
    /// The nonce that the next ping gets.
    pub next_nonce: u32,
    pub streams: DispatchView,
}

impl View for Connection {
    type V = ConnectionView;

    closed spec fn view(&self) -> ConnectionView {
        ConnectionView {
            conn_id: self.conn_id,
            mode: self.mode,
            next_stream: self.stream_id_seed,
            next_nonce: self.ping_nonce_seed,
            streams: self.dispatcher@,
        }
    }
}

/// The parity of the stream ids that a side gives out.
pub open spec fn parity(mode: Mode) -> u32 {
    match mode {
        Mode::Client => 0,
        Mode::Server => 1,
    }
}

/// The opening of a stream: it has the next id and a flow of its own.
pub open spec fn opens(
    pre: ConnectionView,
    post: ConnectionView,
    stream: StreamView,
    announced: ControlView,
) -> bool {
    &&& post == (ConnectionView {
        next_stream: pre.next_stream.wrapping_add(2),
        streams: pre.streams.opening(),
        ..pre
    })
    &&& stream == StreamView::fresh(
        pre.conn_id,
        pre.next_stream,
        pre.streams.next_flow,
        pre.streams.window,
    )
    &&& announced == ControlView::NewStream(
        (NewStreamParams { stream_id: pre.next_stream, flow: Some(pre.streams.next_flow) }),
    )
}

/// The start of a ping.
pub open spec fn pings(pre: ConnectionView, post: ConnectionView, r: PingStart) -> bool {
    &&& pre.streams.entries.len() > 0 ==> r == PingStart::Alive && post == pre
    &&& pre.streams.entries.len() == 0 ==> r == PingStart::Send(pre.next_nonce) && post == (
    ConnectionView { next_nonce: pre.next_nonce.wrapping_add(1), ..pre })
}

/// What a ping with this nonce comes to.
pub open spec fn ping_over(nonce: u32, poll: PongPoll, r: Option<Result<(), PingError>>) -> bool {
    match poll {
        PongPoll::Pong(n) => if n == nonce {
            r == Some(Ok::<(), PingError>(()))
        } else {
            r is None
        },
        PongPoll::Gone => r == Some(
            Err::<(), PingError>(PingError::Dead("mux task terminated; connection unhealthy")),
        ),
        PongPoll::TimedOut => r == Some(
            Err::<(), PingError>(PingError::Timeout(PING_TIMEOUT_SECS)),
        ),
    }
}

impl Connection {
    pub closed spec fn wf(self) -> bool {
        &&& self.dispatcher.wf()
        &&& self.stream_id_seed % 2 == parity(self.mode)
    }

    pub fn new_with_stream_window(mode: Mode, id: u32, stream_window: u32) -> (r: Connection)
        ensures
            r.wf(),
            r@ == (ConnectionView {
                conn_id: id,
                mode,
                next_stream: parity(mode),
                next_nonce: 1,
                streams: DispatchView::empty(stream_window),
            }),
    {
        let stream_id_seed: u32 = match mode {
            Mode::Client => 0,
            Mode::Server => 1,
        };
        Connection {
            conn_id: id,
            mode,
            stream_id_seed,
            ping_nonce_seed: 1,
            dispatcher: Dispatcher::new(stream_window),
        }
    }

    pub fn active_stream_count(&self) -> (n: usize)
        requires
            self.wf(),
        ensures
            n == self@.streams.entries.len(),
    {
        self.dispatcher.active_stream_count()
    }

    /// Whether the connection carries a stream.
    pub fn has_active_streams(&self) -> (r: bool)
        requires
            self.wf(),
        ensures
            r == (self@.streams.entries.len() > 0),
    {
        self.active_stream_count() > 0
    }

    /// A new stream with the next id of this side, and the message that announces it to the
    /// dispatcher. The stream may be written at once: what it sends queues behind the message.
    pub fn open_stream(&mut self) -> (r: (MuxStream, Control))
        requires
            old(self).wf(),
        ensures
            final(self).wf(),
            opens(old(self)@, final(self)@, r.0@, r.1@),
            r.0@.wf(),
            old(self)@.next_stream % 2 == parity(old(self)@.mode),
    {
        let id: u32 = self.stream_id_seed;
        self.stream_id_seed = self.stream_id_seed.wrapping_add(2);
        let window: u32 = self.dispatcher.initial_stream_window;
        let flow: u64 = self.dispatcher.open_flow();
        let stream = MuxStream::new(self.conn_id, id, flow, window);
        (stream, Control::NewStream(NewStreamParams { stream_id: id, flow: Some(flow) }))
    }

    /// The message that asks the dispatcher for a stream of the peer.
    pub fn accept_stream(&self) -> (r: Control)
        ensures
            r@ == ControlView::AcceptStream,
    {
        Control::AcceptStream
    }

    /// The message that ends the dispatcher.
    pub fn close(&self) -> (r: Control)
        ensures
            r@ == ControlView::Close,
    {
        Control::Close
    }

    /// The peer's stream, for the call that takes it.
    pub fn accepted(&self, id: u32, flow: u64) -> (r: MuxStream)
        ensures
            r@ == StreamView::fresh(self@.conn_id, id, flow, self@.streams.window),
            r@.wf(),
    {
        MuxStream::new(self.conn_id, id, flow, self.dispatcher.initial_stream_window)
    }

    /// Acts on a control message.
    pub fn step(&mut self, ctrl: Control) -> (step: Step)
        requires
            old(self).wf(),
            ctrl matches Control::StreamData(_, data, true) ==> buf::bytes_of(data).len()
                <= MAX_EVENT_BODY_LEN,
        ensures
            final(self).wf(),
            is_step(dispatch(old(self)@.streams, ctrl@), final(self)@.streams, step),
            final(self)@ == (ConnectionView { streams: final(self)@.streams, ..old(self)@ }),
    {
        self.dispatcher.step(ctrl)
    }

    /// The streams, for the sweeps, the window grants and the writes.
    pub fn streams(&mut self) -> (r: &mut Dispatcher)
        requires
            old(self).wf(),
        ensures
            r@ == old(self)@.streams,
            r.wf(),
            final(r).wf() ==> final(self).wf(),
            final(self)@ == (ConnectionView { streams: final(r)@, ..old(self)@ }),
    {
        &mut self.dispatcher
    }

    /// Begins a ping: with streams active there is nothing to do, else the next nonce is sent.
    pub fn ping(&mut self) -> (r: PingStart)
        requires
            old(self).wf(),
        ensures
            final(self).wf(),
            pings(old(self)@, final(self)@, r),
    {
        if self.has_active_streams() {
            return PingStart::Alive;
        }
        let nonce: u32 = self.ping_nonce_seed;
        self.ping_nonce_seed = self.ping_nonce_seed.wrapping_add(1);
        PingStart::Send(nonce)
    }
}

/// Whether the ping with this nonce is over, and how: a pong with another nonce is an old one
/// and the wait goes on.
pub fn ping_result(nonce: u32, poll: PongPoll) -> (r: Option<Result<(), PingError>>)
    ensures
        ping_over(nonce, poll, r),
{
    match poll {
        PongPoll::Pong(n) => {
            if n == nonce {
                Some(Ok(()))
            } else {
                None
            }
        },
        PongPoll::Gone => Some(Err(PingError::Dead("mux task terminated; connection unhealthy"))),
        PongPoll::TimedOut => Some(Err(PingError::Timeout(PING_TIMEOUT_SECS))),
    }
}

/// The error of a ping that could not even be queued.
pub fn ping_not_sent() -> (r: PingError)
    ensures
        r == PingError::Dead("mux task terminated; ping not sent"),
{
    PingError::Dead("mux task terminated; ping not sent")
}

/// Whatever message the dispatcher acts on, what the peer may still send on a stream and what
/// waits for its reader make up the window, and no call waits while there is a stream for it.
pub proof fn dispatch_keeps_the_windows(s: DispatchView, c: ControlView)
    requires
        s.wf(),
    ensures
        dispatch(s, c).state.wf(),
        dispatch(s, c).state.window == s.window,
{
}

/// Granting what a reader has read keeps the windows too.
pub proof fn grant_keeps_the_windows(s: DispatchView, sid: u32, increment: u32)
    requires
        s.wf(),
    ensures
        granted(s, sid, increment).wf(),
{
}

/// While the windows are kept no stream's backlog reaches the cap.
pub proof fn backlog_stays_below_the_cap(s: DispatchView, sid: u32)
    requires
        s.wf(),
        s.entries.contains_key(sid),
    ensures
        s.entries[sid].pending <= backlog_cap(s.window),
{
}

/// A stream of the peer beyond the limits is answered with a FIN and changes nothing.
pub proof fn refused_stream_is_answered(s: DispatchView, sid: u32)
    requires
        s.refuses(),
    ensures
        dispatch(
            s,
            ControlView::NewStream(NewStreamParams { stream_id: sid, flow: None }),
        ) == done(s, seq![ActionView::TryWrite(fin(sid))]),
{
}

/// The dispatcher ends when it is told to, and at no other message.
pub proof fn only_a_close_stops(s: DispatchView, c: ControlView)
    ensures
        dispatch(s, c).stop <==> c is Close,
{
}

/// Waking the writer that is parked on a stream.
pub open spec fn wake_of(s: DispatchView, sid: u32) -> ActionView {
    ActionView::Wake(sid, s.entries[sid].parked->Some_0)
}

/// A writer that is parked on a stream is woken by whatever message grants the stream more or
/// takes it off the connection.
pub proof fn parked_writer_is_woken(s: DispatchView, c: ControlView, sid: u32)
    requires
        s.entries.contains_key(sid),
        s.entries[sid].parked is Some,
    ensures
        dispatch(s, c).actions.contains(wake_of(s, sid)) <==> (c
            matches ControlView::WindowUpdateFromPeer(k, _) && k == sid) || !dispatch(
            s,
            c,
        ).state.entries.contains_key(sid),
        dispatch(s, c).state.entries.contains_key(sid) && !dispatch(s, c).actions.contains(
            wake_of(s, sid),
        ) ==> dispatch(s, c).state.entries[sid].parked == s.entries[sid].parked,
{
    let acts = dispatch(s, c).actions;
    let named = match c {
        ControlView::StreamData(k, _, incoming) => incoming && k == sid,
        ControlView::StreamClose(k, _) => k == sid,
        ControlView::WindowUpdateFromPeer(k, _) => k == sid,
        _ => false,
    };
    if named && acts.len() > 0 && acts[0] == wake_of(s, sid) {
        assert(acts.contains(wake_of(s, sid)));
    }
}

/// The streams that wait to be taken stay within their limit, and the peer cannot raise the
/// number of streams above theirs.
pub proof fn limits_hold(s: DispatchView, c: ControlView)
    requires
        s.wf(),
        s.incoming.len() <= MAX_PENDING_INCOMING_STREAMS,
    ensures
        dispatch(s, c).state.incoming.len() <= MAX_PENDING_INCOMING_STREAMS,
        c matches ControlView::NewStream(p) && p.flow is None ==> dispatch(s, c).state.entries.len()
            <= s.entries.len() || dispatch(s, c).state.entries.len()
            <= MAX_MUX_STREAMS_PER_CONNECTION,
{
}

/// A stream changes only through messages that name it.
pub proof fn other_streams_are_untouched(s: DispatchView, c: ControlView, other: u32)
    requires
        match c {
            ControlView::NewStream(p) => p.stream_id != other,
            ControlView::StreamData(sid, _, _) => sid != other,
            ControlView::StreamShutdown(sid, _) => sid != other,
            ControlView::StreamClose(sid, _) => sid != other,
            ControlView::WindowUpdateFromPeer(sid, _) => sid != other,
            _ => true,
        },
    ensures
        dispatch(s, c).state.entries.contains_key(other) == s.entries.contains_key(other),
        s.entries.contains_key(other) ==> dispatch(s, c).state.entries[other] == s.entries[other],
{
}

/// Each frame that one side writes means to the other side what it meant to the first.
pub proof fn frames_mean_the_same_to_the_peer(sid: u32, data: Seq<u8>, n: u32)
    ensures
        frame_of(event::event_of(FLAG_SYN, sid, Seq::empty())) == FrameView::Control(
            ControlView::NewStream(NewStreamParams { stream_id: sid, flow: None }),
        ),
        frame_of(fin(sid)) == FrameView::Control(ControlView::StreamClose(sid, true)),
        frame_of(event::event_of(FLAG_SHUTDOWN, sid, Seq::empty())) == FrameView::Control(
            ControlView::StreamShutdown(sid, true),
        ),
        frame_of(event::event_of(FLAG_DATA, sid, data)) == FrameView::Control(
            ControlView::StreamData(sid, data, true),
        ),
        frame_of(event::event_of(FLAG_WIN_UPDATE, sid, codec::le32(n))) == FrameView::Control(
            ControlView::WindowUpdateFromPeer(sid, n),
        ),
{
    assert(codec::le32(n).subrange(0, 4) =~= codec::le32(n));
    codec::le32_reads_back(n, codec::le32(n), 0);
}

/// A ping is answered by the pong with its nonce, and that pong reaches the ping.
pub proof fn ping_is_answered(s: DispatchView, nonce: u32)
    requires
        s.wf(),
    ensures
        dispatch(s, ControlView::Ping(nonce)).actions == seq![
            ActionView::Write(event::event_of(FLAG_PING, 0, codec::le32(nonce))),
        ],
        frame_of(event::event_of(FLAG_PING, 0, codec::le32(nonce))) == FrameView::Control(
            ControlView::Pong(nonce),
        ),
        dispatch(s, ControlView::Pong(nonce)).actions == seq![
            ActionView::Write(event::event_of(FLAG_PONG, 0, codec::le32(nonce))),
        ],
        frame_of(event::event_of(FLAG_PONG, 0, codec::le32(nonce))) == FrameView::Pong(nonce),
{
    assert(codec::le32(nonce).subrange(0, 4) =~= codec::le32(nonce));
    codec::le32_reads_back(nonce, codec::le32(nonce), 0);
}

/// The two sides of a connection never give the same id to a stream.
pub proof fn stream_ids_never_collide(client_id: u32, server_id: u32)
    requires
        client_id % 2 == parity(Mode::Client),
        server_id % 2 == parity(Mode::Server),
    ensures
        client_id != server_id,
{
}

/// One direction of a stream, seen from both ends: what the sender may still send, what is
/// under way in data and in grants, and what the receiver still takes add up.
pub open spec fn in_step(sender: EntryView, receiver: EntryView, data: int, grants: int) -> bool {
    &&& data >= 0
    &&& grants >= 0
    &&& sender.send_window + data + grants == receiver.recv_window
}

/// A sender that keeps to its window never makes the receiver close the stream: the next data
/// under way is delivered, and the two ends stay in step.
pub proof fn data_within_the_window_is_delivered(
    sender: EntryView,
    r: DispatchView,
    sid: u32,
    body: Seq<u8>,
    data: int,
    grants: int,
)
    requires
        r.wf(),
        r.entries.contains_key(sid),
        r.entries[sid].receiver_open,
        in_step(sender, r.entries[sid], data, grants),
        body.len() <= data,
    ensures
        dispatch_data(r, sid, body).actions == seq![ActionView::Deliver(sid, Some(body))],
        in_step(
            sender,
            dispatch_data(r, sid, body).state.entries[sid],
            data - body.len(),
            grants,
        ),
{
}

/// Sending within the window keeps the two ends in step.
pub proof fn sending_stays_in_step(
    pre: DispatchView,
    post: DispatchView,
    stream: StreamView,
    buf: Seq<u8>,
    whole: bool,
    waker: Waker,
    step: WriteStep,
    receiver: EntryView,
    data: int,
    grants: int,
)
    requires
        is_write(pre, post, stream, buf, whole, waker, Reserve::Ready, step),
        step is Send,
        !pre.opened.contains_key(stream.flow),
        in_step(pre.entries[stream.id], receiver, data, grants),
    ensures
        in_step(post.entries[stream.id], receiver, data + buf::bytes_of(step->Send_0).len(), grants),
{
}

/// A grant for what has been read is on its way and keeps the two ends in step.
pub proof fn granting_stays_in_step(
    sender: EntryView,
    r: DispatchView,
    sid: u32,
    increment: u32,
    data: int,
    grants: int,
)
    requires
        r.wf(),
        r.entries.contains_key(sid),
        increment <= r.entries[sid].pending,
        in_step(sender, r.entries[sid], data, grants),
    ensures
        in_step(sender, granted(r, sid, increment).entries[sid], data, grants + increment),
{
}

/// A grant that arrives keeps the two ends in step.
pub proof fn an_arriving_grant_stays_in_step(
    s: DispatchView,
    receiver: EntryView,
    sid: u32,
    increment: u32,
    data: int,
    grants: int,
)
    requires
        s.entries.contains_key(sid),
        increment <= grants,
        in_step(s.entries[sid], receiver, data, grants),
    ensures
        in_step(
            dispatch(s, ControlView::WindowUpdateFromPeer(sid, increment)).state.entries[sid],
            receiver,
            data,
            grants - increment,
        ),
{
}

/// A stream starts in step.
pub proof fn a_fresh_stream_is_in_step(s: DispatchView, here: u64, there: u64)
    ensures
        in_step(s.fresh(here), s.fresh(there), 0, 0),
{
}

/// A stream that joins brings its flow with it: what was written before is under way, and the two
/// ends are in step once the peer knows the stream.
pub proof fn joining_keeps_the_flow(s: DispatchView, r: DispatchView, sid: u32, flow: u64)
    requires
        s.opened.contains_key(flow),
        !s.entries.contains_key(sid),
        s.opened[flow].send_window <= s.window,
        r.window == s.window,
        !r.refuses(),
        !r.entries.contains_key(sid),
    ensures
        ({
            let joined = dispatch(
                s,
                ControlView::NewStream(NewStreamParams { stream_id: sid, flow: Some(flow) }),
            ).state;
            let known = dispatch(
                r,
                ControlView::NewStream(NewStreamParams { stream_id: sid, flow: None }),
            ).state;
            &&& joined.flow_at(sid, flow) == s.flow_at(sid, flow)
            &&& in_step(
                joined.entries[sid],
                known.entries[sid],
                s.window - s.opened[flow].send_window,
                0,
            )
        }),
{
}

/// Where the two ends are in step, nothing is under way, and the reader has read all that was
/// delivered and owes less than a grant, there is window to write in.
pub proof fn drained_stream_can_be_written(
    sender: EntryView,
    r: DispatchView,
    sid: u32,
    reader: StreamView,
)
    requires
        r.wf(),
        r.window > 0,
        r.entries.contains_key(sid),
        in_step(sender, r.entries[sid], 0, 0),
        reader.wf(),
        reader.threshold == r.window / 2,
        r.entries[sid].pending == reader.consumed,
    ensures
        sender.send_window == r.window - reader.consumed,
        sender.send_window > 0,
        sender.send_window >= r.window - r.window / 2,
{
}

/// A stream that is closed here is off the connection, and the peer is told with a frame that has
/// no body. At the peer's end, where that frame arrives, the stream is taken off too, its reader is
/// told of the reset, and nothing is sent back. No other stream is touched at either end.
pub proof fn closing_reaches_the_peer(s: DispatchView, r: DispatchView, sid: u32, ev: EventView)
    requires
        s.entries.contains_key(sid),
        r.entries.contains_key(sid),
        ev.flag_len == 2,
        ev.stream_id == sid,
        ev.body.len() == 0,
    ensures
        ({
            let d = dispatch(s, ControlView::StreamClose(sid, false));
            &&& d.actions.contains(ActionView::TryWrite(ev))
            &&& !d.state.entries.contains_key(sid)
            &&& !d.stop
            &&& forall|k: u32|
                k != sid && s.entries.contains_key(k) ==> #[trigger] d.state.entries.contains_key(k)
                    && d.state.entries[k] == s.entries[k]
        }),
        frame_of(ev) is Control,
        ({
            let d = dispatch(r, frame_of(ev)->Control_0);
            &&& d.actions.contains(ActionView::Deliver(sid, None))
            &&& !d.state.entries.contains_key(sid)
            &&& !d.stop
            &&& forall|k: u32|
                k != sid && r.entries.contains_key(k) ==> #[trigger] d.state.entries.contains_key(k)
                    && d.state.entries[k] == r.entries[k]
            &&& forall|i: int|
                0 <= i < d.actions.len() ==> !(#[trigger] d.actions[i] is Write)
                    && !(d.actions[i] is TryWrite)
        }),
{
    assert(ev.body =~= Seq::empty());
    assert(ev == fin(sid));
    let a = dispatch(s, ControlView::StreamClose(sid, false)).actions;
    let b = dispatch(r, frame_of(ev)->Control_0).actions;
    let i = wakes(sid, s.entries[sid]).len() as int;
    let j = wakes(sid, r.entries[sid]).len() as int;
    assert(a[i] == ActionView::TryWrite(ev));
    assert(b[j] == ActionView::Deliver(sid, None));
}

/// The ids that the actions hand over, in order.
pub open spec fn handed_over(actions: Seq<ActionView>) -> Seq<(u32, u64)>
    decreases actions.len(),
{
    if actions.len() == 0 {
        Seq::empty()
    } else {
        let before = handed_over(actions.drop_last());
        match actions.last() {
            ActionView::HandOver(sid, flow) => before.push((sid, flow)),
            _ => before,
        }
    }
}

proof fn lemma_handed_over_push(actions: Seq<ActionView>, a: ActionView)
    ensures
        handed_over(actions.push(a)) == match a {
            ActionView::HandOver(sid, flow) => handed_over(actions).push((sid, flow)),
            _ => handed_over(actions),
        },
{
    assert(actions.push(a).drop_last() =~= actions);
}

proof fn lemma_nothing_handed_over(actions: Seq<ActionView>)
    requires
        forall|i: int| 0 <= i < actions.len() ==> !(#[trigger] actions[i] is HandOver),
    ensures
        handed_over(actions) == Seq::<(u32, u64)>::empty(),
    decreases actions.len(),
{
    if actions.len() > 0 {
        let before = actions.drop_last();
        assert forall|i: int| 0 <= i < before.len() implies !(#[trigger] before[i] is HandOver) by {
            assert(before[i] == actions[i]);
        }
        lemma_nothing_handed_over(before);
        assert(!(actions[actions.len() - 1] is HandOver));
    }
    assert(handed_over(actions) =~= Seq::<(u32, u64)>::empty());
}

proof fn lemma_settled_hands_over(t: DispatchView, actions: Seq<ActionView>)
    requires
        forall|i: int| 0 <= i < actions.len() ==> !(#[trigger] actions[i] is HandOver),
    ensures
        handed_over(settled(t, actions).actions) + settled(t, actions).state.incoming
            == t.incoming,
{
    lemma_nothing_handed_over(actions);
    if t.waiting && t.incoming.len() > 0 {
        lemma_handed_over_push(
            actions,
            ActionView::HandOver(t.incoming[0].0, t.incoming[0].1),
        );
    }
    assert(handed_over(settled(t, actions).actions) + settled(t, actions).state.incoming
        =~= t.incoming);
}

/// The peer's streams are handed over in the order in which they came, each of them once: what is
/// handed over and what waits after a message is what waited before it, and the stream that the
/// message brought, if it did. A call that asks gets the oldest stream, or waits where there is
/// none; a second call that asks is refused.
pub proof fn streams_are_handed_over_in_order(s: DispatchView, c: ControlView)
    requires
        s.wf(),
    ensures
        ({
            let d = dispatch(s, c);
            let came = d.state.entries.len() > s.entries.len() && (c
                matches ControlView::NewStream(p) && p.flow is None);
            &&& !came ==> handed_over(d.actions) + d.state.incoming == s.incoming
            &&& came ==> (handed_over(d.actions) + d.state.incoming).len() == s.incoming.len() + 1
                && (handed_over(d.actions) + d.state.incoming).drop_last() == s.incoming
                && (handed_over(d.actions) + d.state.incoming).last().0
                == c->NewStream_0.stream_id
            &&& c is AcceptStream && !s.waiting ==> if s.incoming.len() > 0 {
                handed_over(d.actions) == seq![s.incoming[0]] && !d.state.waiting
            } else {
                handed_over(d.actions).len() == 0 && d.state.waiting
            }
            &&& c is AcceptStream && s.waiting ==> d.state == s && d.actions == seq![
                ActionView::RefuseAccept(AcceptError::Duplicate),
            ]
            &&& s.waiting && !(c is AcceptStream) ==> d.state.waiting == (handed_over(
                d.actions,
            ).len() == 0)
        }),
{
    let d = dispatch(s, c);
    match c {
        ControlView::AcceptStream => {
            if s.waiting {
                assert(d.actions[0] == ActionView::RefuseAccept(AcceptError::Duplicate));
                lemma_nothing_handed_over(d.actions);
            } else {
                lemma_settled_hands_over(DispatchView { waiting: true, ..s }, seq![]);
                lemma_nothing_handed_over(seq![]);
                if s.incoming.len() > 0 {
                    lemma_handed_over_push(
                        seq![],
                        ActionView::HandOver(s.incoming[0].0, s.incoming[0].1),
                    );
                    assert(handed_over(d.actions) =~= seq![s.incoming[0]]);
                }
            }
        },
        ControlView::NewStream(p) => {
            if p.flow is None && s.refuses() {
                lemma_nothing_handed_over(d.actions);
            } else if s.entries.contains_key(p.stream_id) {
                lemma_settled_hands_over(s, seq![]);
            } else {
                match p.flow {
                    None => {
                        let t = DispatchView {
                            incoming: s.incoming.push((p.stream_id, s.next_flow)),
                            next_flow: s.next_flow.wrapping_add(1),
                            ..s.with(p.stream_id, s.fresh(s.next_flow))
                        };
                        lemma_settled_hands_over(t, seq![]);
                        assert(t.incoming.drop_last() =~= s.incoming);
                        lemma_nothing_handed_over(seq![]);
                        if s.waiting {
                            lemma_handed_over_push(
                                seq![],
                                ActionView::HandOver(t.incoming[0].0, t.incoming[0].1),
                            );
                        }
                    },
                    Some(flow_id) => {
                        let syn = ActionView::Write(
                            event::event_of(FLAG_SYN, p.stream_id, Seq::empty()),
                        );
                        lemma_nothing_handed_over(d.actions);
                    },
                }
            }
        },
        _ => {
            lemma_nothing_handed_over(d.actions);
        },
    }
}

/// A stream that is opened here is on the connection, and the peer is told with a frame that has
/// no body. At the peer's end, where that frame arrives, the stream is there with a whole window in
/// both directions; a peer that has a thousand and twenty-four streams, or as many that nobody has
/// taken, answers with the frame that closes it and has no such stream.
pub proof fn opening_reaches_the_peer(
    s: DispatchView,
    r: DispatchView,
    sid: u32,
    flow: u64,
    syn: EventView,
    fin: EventView,
)
    requires
        !s.entries.contains_key(sid),
        !r.entries.contains_key(sid),
        r.wf(),
        syn.flag_len == 4 && syn.stream_id == sid && syn.body.len() == 0,
        fin.flag_len == 2 && fin.stream_id == sid && fin.body.len() == 0,
    ensures
        ({
            let p = NewStreamParams { stream_id: sid, flow: Some(flow) };
            let d = dispatch(s, ControlView::NewStream(p));
            &&& d.actions.contains(ActionView::Write(syn))
            &&& d.state.entries.contains_key(sid)
            &&& d.state.entries[sid].flow_id == flow
            &&& d.state.entries[sid].recv_window == s.window
            &&& d.state.entries[sid].receiver_open
        }),
        frame_of(syn) is Control,
        ({
            let d = dispatch(r, frame_of(syn)->Control_0);
            if r.entries.len() < 1024 && r.incoming.len() < 1024 {
                &&& d.state.entries.contains_key(sid)
                &&& d.state.entries[sid].recv_window == r.window
                &&& d.state.entries[sid].send_window == r.window
                &&& d.state.entries[sid].pending == 0
                &&& d.state.entries[sid].receiver_open
                &&& d.state.entries.len() == r.entries.len() + 1
            } else {
                &&& d.state == r
                &&& d.actions == seq![ActionView::TryWrite(fin)]
            }
        }),
{
    assert(syn.body =~= Seq::empty());
    assert(fin.body =~= Seq::empty());
    assert(syn == event::event_of(FLAG_SYN, sid, Seq::empty()));
    assert(fin == self::fin(sid));
    let p = NewStreamParams { stream_id: sid, flow: Some(flow) };
    let d = dispatch(s, ControlView::NewStream(p));
    assert(d.actions[0] == ActionView::Write(syn));
}

/// Data that does not keep to the window closes the stream: its reader is told of the reset, the
/// peer is told, and none of the data is delivered. Data that nobody reads any more takes the
/// stream off, and is delivered to no one.
pub proof fn data_that_cannot_be_taken_ends_the_stream(
    s: DispatchView,
    sid: u32,
    data: Seq<u8>,
    fin: EventView,
)
    requires
        s.entries.contains_key(sid),
        data.len() > s.entries[sid].recv_window || !s.entries[sid].receiver_open,
        fin.flag_len == 2 && fin.stream_id == sid && fin.body.len() == 0,
    ensures
        ({
            let d = dispatch(s, ControlView::StreamData(sid, data, true));
            &&& !d.state.entries.contains_key(sid)
            &&& forall|i: int|
                0 <= i < d.actions.len() ==> match #[trigger] d.actions[i] {
                    ActionView::Deliver(_, data) => data is None,
                    _ => true,
                }
            &&& data.len() > s.entries[sid].recv_window ==> d.actions.contains(
                ActionView::Deliver(sid, None),
            ) && d.actions.contains(ActionView::TryWrite(fin))
        }),
{
    assert(fin.body =~= Seq::empty());
    assert(fin == self::fin(sid));
    let d = dispatch(s, ControlView::StreamData(sid, data, true));
    if data.len() > s.entries[sid].recv_window {
        let i = wakes(sid, s.entries[sid]).len() as int;
        assert(d.actions[i] == ActionView::Deliver(sid, None));
        assert(d.actions[i + 1] == ActionView::TryWrite(fin));
    }
}

/// Streams that one side opens one after the other have ids of the same kind and flows of their
/// own: no two of them are the same, and each may be written in before it is announced.
pub proof fn opened_streams_are_new(
    pre: ConnectionView,
    mid: ConnectionView,
    a: StreamView,
    ca: ControlView,
    post: ConnectionView,
    b: StreamView,
    cb: ControlView,
)
    requires
        opens(pre, mid, a, ca),
        opens(mid, post, b, cb),
    ensures
        a.id == pre.next_stream,
        b.id == u32::wrapping_add(a.id, 2),
        a.id != b.id && a.id % 2 == b.id % 2,
        a.flow != b.flow,
        mid.streams.opened.contains_key(a.flow),
        mid.streams.opened[a.flow].send_window == pre.streams.window,
        post.streams.opened.contains_key(a.flow) && post.streams.opened.contains_key(b.flow),
        post.streams.entries == pre.streams.entries,
        ca is NewStream && ca->NewStream_0.stream_id == a.id && ca->NewStream_0.flow == Some(
            a.flow,
        ),
        a.buffered.len() == 0 && !a.ending && !a.reset && !a.eof && a.consumed == 0,
        a.threshold == pre.streams.window / 2,
{
}

/// A connection is only pinged when it has no streams; each ping has a nonce of its own, and only
/// the answer to that very ping ends the wait well. Silence ends it after five seconds, and a
/// dispatcher that is gone at once.
pub proof fn ping_waits_for_its_own_answer(
    pre: ConnectionView,
    mid: ConnectionView,
    first: PingStart,
    post: ConnectionView,
    second: PingStart,
    n: u32,
    poll: PongPoll,
    r: Option<Result<(), PingError>>,
)
    requires
        pings(pre, mid, first),
        pings(mid, post, second),
        first == PingStart::Send(n),
        ping_over(n, poll, r),
    ensures
        pre.streams.entries.len() == 0,
        second is Send && second->Send_0 != n,
        mid.streams == pre.streams && mid.next_stream == pre.next_stream,
        match poll {
            PongPoll::Pong(m) => (r is Some <==> m == n) && (m == n ==> r->Some_0 is Ok),
            PongPoll::Gone => r is Some && r->Some_0 is Err && r->Some_0->Err_0 is Dead,
            PongPoll::TimedOut => r is Some && r->Some_0 == Err::<(), PingError>(
                PingError::Timeout(5),
            ),
        },
{
}

/// A stream of the peer is taken as long as fewer than 1024 wait and fewer than 1024 are open.
pub proof fn streams_are_taken_up_to_the_limits(waiting: usize, active: usize)
    ensures
        rejection(waiting, active) is None <==> waiting < 1024 && active < 1024,
        waiting >= 1024 ==> rejection(waiting, active) == Some("pending"),
        waiting < 1024 && active >= 1024 ==> rejection(waiting, active) == Some("active"),
{
}

/// When a connection ends, every stream of it is reset, once, every parked writer is woken, a
/// waiting call is told, and no stream is left.
pub proof fn ending_reaches_every_stream(
    pre: DispatchView,
    post: DispatchView,
    reset: Seq<u32>,
    told: Option<AcceptError>,
    wakeups: Seq<Wakeup>,
    sid: u32,
)
    requires
        tears_down(pre, post, reset, told, wakeups),
        pre.entries.contains_key(sid),
    ensures
        reset.contains(sid),
        reset.no_duplicates(),
        !post.entries.contains_key(sid),
        pre.entries[sid].parked is Some ==> woken_ids(wakeups).contains(sid),
        told is Some <==> pre.waiting,
        !post.waiting,
{
}

/// A stream whose backlog is more than four windows is taken off and the peer is told of it, and a
/// writer that is parked on it is woken; every other stream stays as it is.
pub proof fn stuck_streams_are_taken_off(
    pre: Map<u32, StreamEntry>,
    post: Map<u32, StreamEntry>,
    count: usize,
    left: usize,
    window: u32,
    ids: Seq<u32>,
    wakeups: Seq<Wakeup>,
    k: u32,
)
    requires
        drained(pre, post, count, left, window, ids, wakeups),
        pre.contains_key(k),
        ids.len() <= count,
    ensures
        pre[k].pending_bytes > 4 * window ==> {
            &&& ids.contains(k)
            &&& !post.contains_key(k)
            &&& pre[k].flow.parked() is Some ==> woken_ids(wakeups).contains(k)
        },
        pre[k].pending_bytes <= 4 * window ==> {
            &&& !ids.contains(k)
            &&& post.contains_key(k)
            &&& post[k] == pre[k]
            &&& !woken_ids(wakeups).contains(k)
        },
        left == count - ids.len(),
{
    assert(post.contains_key(k) <==> pre.contains_key(k) && !ids.contains(k));
    assert(ids.to_set().contains(k) <==> ids.contains(k));
    assert(woken_ids(wakeups).contains(k) <==> ids.to_set().contains(k) && pre.contains_key(k)
        && pre[k].flow.parked() is Some);
}

/// A stream that nobody reads any more is taken off, and a writer that is parked on it is woken;
/// one that is read stays as it is. The count goes down by as many as left.
pub proof fn unread_streams_are_taken_off(
    pre: Map<u32, StreamEntry>,
    post: Map<u32, StreamEntry>,
    count: usize,
    left: usize,
    n: usize,
    wakeups: Seq<Wakeup>,
    k: u32,
)
    requires
        reaped(pre, post, count, left, n, wakeups),
        pre.contains_key(k),
        n <= count,
    ensures
        post.contains_key(k) <==> pre[k].receiver_open,
        pre[k].receiver_open ==> post[k] == pre[k],
        !pre[k].receiver_open && pre[k].flow.parked() is Some ==> woken_ids(wakeups).contains(k),
        left == count - n,
        n == pre.len() - post.len(),
{
    assert(post.contains_key(k) <==> pre.contains_key(k) && pre[k].receiver_open);
    assert(pre.dom().difference(post.dom()).contains(k) <==> !post.contains_key(k));
    assert(woken_ids(wakeups).contains(k) <==> pre.dom().difference(post.dom()).contains(k)
        && pre.contains_key(k) && pre[k].flow.parked() is Some);
}

/// A side that ends its direction of a stream says so, and at the other side the stream's reader
/// comes to the end of its data. The stream stays at both ends, for the other direction.
pub proof fn end_of_a_direction_reaches_the_peer(
    s: DispatchView,
    r: DispatchView,
    sid: u32,
    ev: EventView,
)
    requires
        s.entries.contains_key(sid),
        r.entries.contains_key(sid),
        ev.flag_len == 7,
        ev.stream_id == sid,
        ev.body.len() == 0,
    ensures
        ({
            let d = dispatch(s, ControlView::StreamShutdown(sid, false));
            &&& d.actions.contains(ActionView::Write(ev))
            &&& d.state.entries == s.entries
            &&& !d.stop
        }),
        frame_of(ev) is Control,
        ({
            let d = dispatch(r, frame_of(ev)->Control_0);
            &&& d.actions.contains(ActionView::Deliver(sid, Some(Seq::empty())))
            &&& d.state.entries == r.entries
            &&& !d.stop
        }),
{
    assert(ev.body =~= Seq::empty());
    assert(ev == event::event_of(FLAG_SHUTDOWN, sid, Seq::empty()));
    let a = dispatch(s, ControlView::StreamShutdown(sid, false)).actions;
    let b = dispatch(r, frame_of(ev)->Control_0).actions;
    assert(a.len() > 0 && b.len() > 0);
    assert(a[0] == ActionView::Write(ev));
    assert(b[0] == ActionView::Deliver(sid, Some(Seq::empty())));
}

/// What is written on a stream goes out as it is, in one event, and at the other side it is
/// delivered as it is, as far as the reader is there and its window covers it.
pub proof fn data_reaches_the_peer(
    s: DispatchView,
    r: DispatchView,
    sid: u32,
    data: Seq<u8>,
    ev: EventView,
)
    requires
        r.entries.contains_key(sid),
        r.entries[sid].receiver_open,
        data.len() <= r.entries[sid].recv_window,
        data.len() < 0x100_0000,
        ev.flag_len == data.len() * 256 + 3,
        ev.stream_id == sid,
        ev.body == data,
    ensures
        dispatch(s, ControlView::StreamData(sid, data, false)).actions.contains(
            ActionView::Write(ev),
        ),
        dispatch(s, ControlView::StreamData(sid, data, false)).state.entries == s.entries,
        frame_of(ev) is Control,
        ({
            let d = dispatch(r, frame_of(ev)->Control_0);
            &&& d.actions.contains(ActionView::Deliver(sid, Some(data)))
            &&& d.state.entries.contains_key(sid)
            &&& d.state.entries[sid].recv_window == r.entries[sid].recv_window - data.len()
        }),
{
    assert(ev == event::event_of(FLAG_DATA, sid, data));
    let a = dispatch(s, ControlView::StreamData(sid, data, false)).actions;
    let b = dispatch(r, frame_of(ev)->Control_0).actions;
    assert(a.len() > 0 && b.len() > 0);
    assert(a[0] == ActionView::Write(ev));
    assert(b[0] == ActionView::Deliver(sid, Some(data)));
}

/// The regular sweep takes off exactly the streams that nobody reads any more, and leaves the
/// others as they are.
pub proof fn sweep_takes_off_unread_streams(entries: Map<u32, EntryView>, k: u32)
    requires
        entries.contains_key(k),
    ensures
        still_read(entries).contains_key(k) <==> entries[k].receiver_open,
        entries[k].receiver_open ==> still_read(entries)[k] == entries[k],
{
}

/// What a write on a stream takes is the start of what was given, never more than the window, and
/// all of it where it must go in one piece; the window is less by exactly what was taken, and a
/// writer waits exactly when there is no room for it.
pub proof fn write_takes_what_the_window_covers(
    pre: DispatchView,
    post: DispatchView,
    stream: StreamView,
    data: Seq<u8>,
    whole: bool,
    waker: Waker,
    reserve: Reserve,
    step: WriteStep,
    f: FlowView,
)
    requires
        is_write(pre, post, stream, data, whole, waker, reserve, step),
        !stream.reset,
        pre.flow_at(stream.id, stream.flow) == Some(f),
        data.len() > 0,
    ensures
        step is Send <==> reserve is Ready && f.send_window > 0 && (whole ==> data.len()
            <= f.send_window),
        step is Send ==> {
            let sent = buf::bytes_of(step->Send_0);
            &&& 0 < sent.len() <= data.len()
            &&& sent == data.take(sent.len() as int)
            &&& whole ==> sent == data
            &&& sent.len() == data.len() || sent.len() == f.send_window
            &&& post.flow_at(stream.id, stream.flow) is Some
            &&& post.flow_at(stream.id, stream.flow)->Some_0.send_window + sent.len()
                == f.send_window
        },
        step is Pending <==> f.send_window == 0 || reserve is Pending || (whole && data.len()
            > f.send_window),
        step is Pending ==> post.flow_at(stream.id, stream.flow) is Some && post.flow_at(
            stream.id,
            stream.flow,
        )->Some_0.parked is Some && post.flow_at(stream.id, stream.flow)->Some_0.send_window
            == f.send_window,
{
    assert(data.take(data.len() as int) =~= data);
}

} // verus!
