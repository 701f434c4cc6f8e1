//! One direction of a stream, from the writer at one end to the reader at the other.
//!
//! The moves are what the functions of this library do, as their contracts say it; here they are
//! put together, in any order, and shown to lose nothing and never to get stuck.

use std::task::Waker;
use vstd::prelude::*;
use crate::buf;
use crate::codec;
use crate::mux::connection;
use crate::mux::connection::{ActionView, DispatchView, FlowView, FrameView};
use crate::mux::event;
use crate::mux::event::{EventView, FLAG_DATA, FLAG_SHUTDOWN, FLAG_SYN, FLAG_WIN_UPDATE};
use crate::mux::stream;
use crate::mux::stream::{
    ControlView, Inbound, NewStreamParams, ReadStep, Reserve, StreamView, WriteStep,
};

verus! {

/// Both ends of one direction of a stream, and what is under way between them.
#[verifier::ext_equal]
pub struct Transfer {
    /// The stream that writes.
    pub writer: StreamView,
    /// The connection at the writer's end.
    pub sender: DispatchView,
    /// What the writer has sent to its dispatcher, oldest first.
    pub control: Seq<ControlView>,
    /// The frames of the stream that are under way, oldest first.
    pub wire: Seq<EventView>,
    /// The connection at the reader's end.
    pub receiver: DispatchView,
    /// What was delivered to the reader and has not been taken, oldest first.
    pub queue: Seq<Seq<u8>>,
    /// The stream that reads.
    pub reader: StreamView,
    /// Grants of the reader that its dispatcher has not seen, oldest first.
    pub updates: Seq<u32>,
    /// Grants that are under way to the writer's end, oldest first.
    pub back: Seq<u32>,
    /// All that was written.
    pub written: Seq<u8>,
    /// All that was read.
    pub read: Seq<u8>,
    /// How much window the parked writer waits for; none where it waits for its control queue.
    pub wanted: nat,
}

/// What can happen next.
pub enum Move {
    /// The writer writes.
    Write(Seq<u8>, bool, Waker, Reserve, WriteStep),
    /// The writer ends its direction.
    Shutdown,
    /// The sender's dispatcher acts on its next message.
    Send,
    /// The next frame arrives.
    Arrive,
    /// The reader reads up to so many bytes.
    Read(Inbound, usize, ReadStep),
    /// The reader ends the other direction, and grants what it owes.
    Flush,
    /// The receiver's dispatcher passes the next grant on.
    Grant,
    /// The next grant arrives.
    Credit,
    /// Something else happens at the two ends.
    Other,
}

/// The events that the actions write, in order.
pub open spec fn written_events(actions: Seq<ActionView>) -> Seq<EventView>
    decreases actions.len(),
{
    if actions.len() == 0 {
        Seq::empty()
    } else {
        let before = written_events(actions.drop_last());
        match actions.last() {
            ActionView::Write(ev) => before.push(ev),
            _ => before,
        }
    }
}

/// The data that the actions deliver to the stream, in order.
pub open spec fn delivered_data(actions: Seq<ActionView>, sid: u32) -> Seq<Seq<u8>>
    decreases actions.len(),
{
    if actions.len() == 0 {
        Seq::empty()
    } else {
        let before = delivered_data(actions.drop_last(), sid);
        match actions.last() {
            ActionView::Deliver(k, Some(data)) => if k == sid {
                before.push(data)
            } else {
                before
            },
            _ => before,
        }
    }
}

/// The frame that announces a stream.
pub open spec fn syn(sid: u32) -> EventView {
    event::event_of(FLAG_SYN, sid, Seq::empty())
}

/// The frame that grants the peer so many bytes more.
pub open spec fn grant(sid: u32, n: u32) -> EventView {
    event::event_of(FLAG_WIN_UPDATE, sid, codec::le32(n))
}

impl Transfer {
    pub open spec fn sid(self) -> u32 {
        self.writer.id
    }

    /// The writer's flow.
    pub open spec fn flow(self) -> FlowView {
        self.sender.flow_at(self.writer.id, self.writer.flow)->Some_0
    }

    /// The peer knows the stream.
    pub open spec fn joined(self) -> bool {
        self.receiver.entries.contains_key(self.sid())
    }

    /// The message that announces the stream at the writer's end.
    pub open spec fn announcement(self) -> ControlView {
        ControlView::NewStream(
            NewStreamParams { stream_id: self.writer.id, flow: Some(self.writer.flow) },
        )
    }

    /// The reader takes from its queue.
    pub open spec fn reader_takes(self) -> bool {
        self.reader.buffered.len() == 0 && !self.reader.eof
    }

    /// There is something for the reader.
    pub open spec fn readable(self) -> bool {
        self.reader.buffered.len() > 0 || (self.queue.len() > 0 && !self.reader.eof)
    }

    /// The stream has just been opened at the writer's end, and nothing has been done with it.
    pub open spec fn starts(self) -> bool {
        &&& self.sender.wf()
        &&& self.receiver.wf()
        &&& self.receiver.window == self.sender.window
        &&& self.sender.opened.contains_key(self.writer.flow)
        &&& self.flow() == (FlowView { send_window: self.sender.window, parked: None })
        &&& !self.sender.entries.contains_key(self.sid())
        &&& !self.receiver.entries.contains_key(self.sid())
        &&& !self.writer.reset && !self.writer.ending
        &&& self.control == seq![self.announcement()]
        &&& self.wire.len() == 0
        &&& self.queue.len() == 0
        &&& self.reader == StreamView::fresh(
            self.reader.conn_id,
            self.reader.id,
            self.reader.flow,
            self.receiver.window,
        )
        &&& self.updates.len() == 0
        &&& self.back.len() == 0
        &&& self.written.len() == 0
        &&& self.read.len() == 0
        &&& self.wanted == 0
    }

    /// Nothing is under way, and the reader has taken what there was.
    pub open spec fn idle(self) -> bool {
        &&& self.control.len() == 0
        &&& self.wire.len() == 0
        &&& self.queue.len() == 0
        &&& self.reader.buffered.len() == 0
        &&& self.updates.len() == 0
        &&& self.back.len() == 0
    }

    /// How much there is to do until the transfer is idle.
    pub open spec fn work(self) -> int {
        3 * (self.written.len() - self.read.len()) + 3 * self.control.len() + 2 * self.wire.len()
            + self.queue.len() + 2 * self.updates.len() + self.back.len()
    }
}

/// What a writer that is parked waits for.
pub open spec fn wants(f: FlowView, data: Seq<u8>, whole: bool) -> nat {
    if whole && f.send_window < data.len() {
        data.len()
    } else if f.send_window == 0 {
        1
    } else {
        0
    }
}

/// The move leads from one state to the other.
pub open spec fn is_move(pre: Transfer, post: Transfer, m: Move) -> bool {
    let sid = pre.sid();
    match m {
        Move::Write(data, whole, waker, reserve, step) => {
            let sent = if step is Send {
                buf::bytes_of(step->Send_0)
            } else {
                Seq::empty()
            };
            &&& !pre.writer.ending
            &&& connection::is_write(
                pre.sender,
                post.sender,
                pre.writer,
                data,
                whole,
                waker,
                reserve,
                step,
            )
            &&& post == (Transfer {
                sender: post.sender,
                control: if step is Send {
                    pre.control.push(ControlView::StreamData(sid, sent, false))
                } else {
                    pre.control
                },
                written: pre.written + sent,
                wanted: if step is Pending {
                    wants(pre.flow(), data, whole)
                } else {
                    pre.wanted
                },
                ..pre
            })
        },
        Move::Shutdown => {
            &&& !pre.writer.ending
            &&& post == (Transfer {
                writer: StreamView { ending: true, consumed: 0, ..pre.writer },
                control: pre.control.push(ControlView::StreamShutdown(sid, false)),
                ..pre
            })
        },
        Move::Send => {
            let d = connection::dispatch(pre.sender, pre.control[0]);
            &&& pre.control.len() > 0
            &&& post == (Transfer {
                sender: d.state,
                control: pre.control.skip(1),
                wire: pre.wire + written_events(d.actions),
                ..pre
            })
        },
        Move::Arrive => {
            let frame = connection::frame_of(pre.wire[0]);
            let d = connection::dispatch(pre.receiver, frame->Control_0);
            &&& pre.wire.len() > 0
            &&& frame is Control
            &&& pre.wire[0] == syn(sid) ==> !pre.receiver.refuses()
            &&& post == (Transfer {
                receiver: d.state,
                wire: pre.wire.skip(1),
                queue: pre.queue + delivered_data(d.actions, sid),
                ..pre
            })
        },
        Move::Read(inbound, capacity, step) => {
            let takes = pre.reader_takes() && pre.queue.len() > 0;
            &&& pre.reader_takes() ==> if pre.queue.len() > 0 {
                inbound is Data && buf::bytes_of(inbound->Data_0) == pre.queue[0]
            } else {
                inbound is Pending
            }
            &&& stream::reads(pre.reader, post.reader, inbound, capacity, step)
            &&& post == (Transfer {
                reader: post.reader,
                queue: if takes {
                    pre.queue.skip(1)
                } else {
                    pre.queue
                },
                read: pre.read + stream::given(step),
                updates: match step.window_update {
                    Some(n) => pre.updates.push(n),
                    None => pre.updates,
                },
                ..pre
            })
        },
        Move::Flush => {
            &&& !pre.reader.ending
            &&& post == (Transfer {
                reader: StreamView { ending: true, consumed: 0, ..pre.reader },
                updates: match stream::owed(pre.reader) {
                    Some(n) => pre.updates.push(n),
                    None => pre.updates,
                },
                ..pre
            })
        },
        Move::Grant => {
            &&& pre.updates.len() > 0
            &&& post == (Transfer {
                receiver: connection::granted(pre.receiver, sid, pre.updates[0]),
                updates: pre.updates.skip(1),
                back: pre.back.push(pre.updates[0]),
                ..pre
            })
        },
        Move::Credit => {
            let frame = connection::frame_of(grant(sid, pre.back[0]));
            &&& pre.back.len() > 0
            &&& frame is Control
            &&& post == (Transfer {
                sender: connection::dispatch(pre.sender, frame->Control_0).state,
                back: pre.back.skip(1),
                ..pre
            })
        },
        Move::Other => {
            &&& leaves_sender(pre, post.sender)
            &&& leaves_receiver(pre, post.receiver)
            &&& post.writer == (StreamView {
                id: pre.writer.id,
                flow: pre.writer.flow,
                reset: pre.writer.reset,
                ending: pre.writer.ending,
                ..post.writer
            })
            &&& post == (Transfer {
                writer: post.writer,
                sender: post.sender,
                receiver: post.receiver,
                ..pre
            })
        },
    }
}

/// The writer's end, after something that does not concern the transfer.
pub open spec fn leaves_sender(t: Transfer, sender: DispatchView) -> bool {
    &&& sender.wf()
    &&& sender.window == t.sender.window
    &&& sender.flow_at(t.writer.id, t.writer.flow) == t.sender.flow_at(
        t.writer.id,
        t.writer.flow,
    )
    &&& sender.opened.contains_key(t.writer.flow) == t.sender.opened.contains_key(t.writer.flow)
    &&& sender.entries.contains_key(t.sid()) == t.sender.entries.contains_key(t.sid())
}

/// The reader's end, after something that does not concern the transfer.
pub open spec fn leaves_receiver(t: Transfer, receiver: DispatchView) -> bool {
    let e = t.receiver.entries[t.sid()];
    let f = receiver.entries[t.sid()];
    &&& receiver.wf()
    &&& receiver.window == t.receiver.window
    &&& receiver.entries.contains_key(t.sid()) == t.joined()
    &&& t.joined() ==> f.recv_window == e.recv_window && f.receiver_open == e.receiver_open
}

/// The data that a message to the dispatcher carries.
pub open spec fn control_data(c: ControlView) -> Seq<u8> {
    match c {
        ControlView::StreamData(_, data, false) => data,
        _ => Seq::empty(),
    }
}

/// The data that the messages carry.
pub open spec fn control_pieces(control: Seq<ControlView>) -> Seq<Seq<u8>> {
    Seq::new(control.len(), |i: int| control_data(control[i]))
}

/// The data that the frames carry.
pub open spec fn wire_pieces(wire: Seq<EventView>) -> Seq<Seq<u8>> {
    Seq::new(wire.len(), |i: int| wire[i].body)
}

/// The sum of the grants.
pub open spec fn total(grants: Seq<u32>) -> int
    decreases grants.len(),
{
    if grants.len() == 0 {
        0
    } else {
        grants[0] + total(grants.skip(1))
    }
}

impl Transfer {
    /// What was written and has not been read: what the reader holds, then what is in its queue,
    /// then what is on the wire, then what has not been sent.
    pub open spec fn under_way(self) -> Seq<u8> {
        self.reader.buffered + self.queue.flatten() + wire_pieces(self.wire).flatten()
            + control_pieces(self.control).flatten()
    }

    /// What the peer is ready to take.
    pub open spec fn room(self) -> int {
        if self.joined() {
            self.receiver.entries[self.sid()].recv_window as int
        } else {
            self.sender.window as int
        }
    }

    /// The windows at the two ends agree, given what is under way between them.
    pub open spec fn windows_agree(self) -> bool {
        self.flow().send_window + wire_pieces(self.wire).flatten().len() + control_pieces(
            self.control,
        ).flatten().len() + total(self.back) == self.room()
    }

    /// What the receiver counts as waiting is what the reader has not read or not granted yet.
    pub open spec fn backlog_agrees(self) -> bool {
        let waiting = self.queue.flatten().len() + self.reader.buffered.len() + self.reader.consumed
            + total(self.updates);
        if self.joined() {
            &&& self.receiver.entries[self.sid()].pending == waiting
            &&& self.receiver.entries[self.sid()].receiver_open
        } else {
            waiting == 0 && self.queue.len() == 0 && self.updates.len() == 0 && self.back.len() == 0
        }
    }

    /// Where the announcement of the stream is: not sent, on the wire, or done with.
    pub open spec fn announced(self) -> bool {
        let unsent = self.control.len() > 0 && self.control[0] == self.announcement();
        let sent = self.wire.len() > 0 && self.wire[0] == syn(self.sid());
        if unsent {
            &&& !self.joined()
            &&& self.wire.len() == 0
            &&& self.sender.opened.contains_key(self.writer.flow)
            &&& !self.sender.entries.contains_key(self.sid())
        } else {
            &&& sent <==> !self.joined()
            &&& !self.sender.opened.contains_key(self.writer.flow)
            &&& self.sender.entries.contains_key(self.sid())
        }
    }

    /// The messages to the dispatcher: after the announcement, data, and at the end the shutdown.
    pub open spec fn control_in_order(self) -> bool {
        forall|i: int|
            0 <= i < self.control.len() ==> match #[trigger] self.control[i] {
                ControlView::StreamData(k, data, incoming) => k == self.sid() && !incoming
                    && data.len() > 0,
                ControlView::StreamShutdown(k, remote) => k == self.sid() && !remote && i
                    == self.control.len() - 1 && self.writer.ending,
                c => i == 0 && c == self.announcement(),
            }
    }

    /// The frames: after the announcement, data, and at the end the shutdown.
    pub open spec fn wire_in_order(self) -> bool {
        forall|i: int|
            0 <= i < self.wire.len() ==> {
                let ev = #[trigger] self.wire[i];
                ||| ev == event::event_of(FLAG_DATA, self.sid(), ev.body) && ev.body.len() > 0
                ||| ev == event::event_of(FLAG_SHUTDOWN, self.sid(), Seq::empty()) && i
                    == self.wire.len() - 1 && self.control.len() == 0 && self.writer.ending
                ||| ev == syn(self.sid()) && i == 0
            }
    }

    /// The queue: data, and at the end the empty piece.
    pub open spec fn queue_in_order(self) -> bool {
        forall|i: int|
            0 <= i < self.queue.len() ==> (#[trigger] self.queue[i]).len() > 0 || (i
                == self.queue.len() - 1 && self.wire.len() == 0 && self.control.len() == 0
                && self.writer.ending)
    }

    /// The end of the writer's direction is in one place: not sent, on the wire, in the queue, or
    /// known to the reader.
    pub open spec fn end_is_somewhere(self) -> bool {
        if !self.writer.ending {
            !self.reader.eof
        } else if self.control.len() > 0 {
            self.control.last() == ControlView::StreamShutdown(self.sid(), false)
                && !self.reader.eof
        } else if self.wire.len() > 0 {
            self.wire.last() == event::event_of(FLAG_SHUTDOWN, self.sid(), Seq::empty())
                && !self.reader.eof
        } else if self.queue.len() > 0 {
            self.queue.last().len() == 0 && !self.reader.eof
        } else {
            self.reader.eof
        }
    }

    /// What holds of a transfer at every time.
    pub open spec fn sound(self) -> bool {
        &&& self.sender.wf()
        &&& self.receiver.wf()
        &&& self.receiver.window == self.sender.window
        &&& !self.writer.reset
        &&& self.sender.flow_at(self.writer.id, self.writer.flow) is Some
        &&& !self.reader.reset
        &&& self.reader.consumed < self.reader.threshold || self.reader.consumed == 0
        &&& self.reader.threshold == self.receiver.window / 2
        &&& self.reader.eof ==> self.reader.buffered.len() == 0
        &&& self.flow().parked is Some && self.wanted > 0 ==> self.flow().send_window < self.wanted
        &&& self.written == self.read + self.under_way()
        &&& self.windows_agree()
        &&& self.backlog_agrees()
        &&& self.announced()
        &&& self.control_in_order()
        &&& self.wire_in_order()
        &&& self.queue_in_order()
        &&& self.end_is_somewhere()
    }
}

proof fn lemma_flatten_push(s: Seq<Seq<u8>>, x: Seq<u8>)
    ensures
        s.push(x).flatten() == s.flatten() + x,
    decreases s.len(),
{
    let t = s.push(x);
    if s.len() == 0 {
        assert(t.drop_first() =~= Seq::<Seq<u8>>::empty());
        assert(t.drop_first().flatten() =~= Seq::<u8>::empty());
        assert(t.flatten() =~= s.flatten() + x);
    } else {
        lemma_flatten_push(s.drop_first(), x);
        assert(t.drop_first() =~= s.drop_first().push(x));
        assert(t.flatten() =~= s.flatten() + x);
    }
}

proof fn lemma_flatten_skip(s: Seq<Seq<u8>>)
    requires
        s.len() > 0,
    ensures
        s.flatten() == s[0] + s.skip(1).flatten(),
{
    assert(s.drop_first() =~= s.skip(1));
}

proof fn lemma_total_push(s: Seq<u32>, x: u32)
    ensures
        total(s.push(x)) == total(s) + x,
    decreases s.len(),
{
    if s.len() == 0 {
        assert(s.push(x).skip(1) =~= Seq::<u32>::empty());
        assert(total(s.push(x).skip(1)) == 0);
    } else {
        lemma_total_push(s.skip(1), x);
        assert(s.push(x).skip(1) =~= s.skip(1).push(x));
    }
}

proof fn lemma_total_is_natural(s: Seq<u32>)
    ensures
        total(s) >= 0,
        s.len() > 0 ==> total(s) >= s[0],
    decreases s.len(),
{
    if s.len() > 0 {
        lemma_total_is_natural(s.skip(1));
    }
}

proof fn lemma_control_push(control: Seq<ControlView>, c: ControlView)
    ensures
        control_pieces(control.push(c)).flatten() == control_pieces(control).flatten()
            + control_data(c),
{
    assert(control_pieces(control.push(c)) =~= control_pieces(control).push(control_data(c)));
    lemma_flatten_push(control_pieces(control), control_data(c));
}

proof fn lemma_control_skip(control: Seq<ControlView>)
    requires
        control.len() > 0,
    ensures
        control_pieces(control).flatten() == control_data(control[0]) + control_pieces(
            control.skip(1),
        ).flatten(),
{
    lemma_flatten_skip(control_pieces(control));
    assert(control_pieces(control).skip(1) =~= control_pieces(control.skip(1)));
}

proof fn lemma_wire_push(wire: Seq<EventView>, ev: EventView)
    ensures
        wire_pieces(wire.push(ev)).flatten() == wire_pieces(wire).flatten() + ev.body,
{
    assert(wire_pieces(wire.push(ev)) =~= wire_pieces(wire).push(ev.body));
    lemma_flatten_push(wire_pieces(wire), ev.body);
}

proof fn lemma_wire_skip(wire: Seq<EventView>)
    requires
        wire.len() > 0,
    ensures
        wire_pieces(wire).flatten() == wire[0].body + wire_pieces(wire.skip(1)).flatten(),
{
    lemma_flatten_skip(wire_pieces(wire));
    assert(wire_pieces(wire).skip(1) =~= wire_pieces(wire.skip(1)));
}

proof fn lemma_single_action(a: ActionView, sid: u32)
    ensures
        written_events(seq![a]) == match a {
            ActionView::Write(ev) => seq![ev],
            _ => Seq::<EventView>::empty(),
        },
        delivered_data(seq![a], sid) == match a {
            ActionView::Deliver(k, Some(data)) => if k == sid {
                seq![data]
            } else {
                Seq::<Seq<u8>>::empty()
            },
            _ => Seq::<Seq<u8>>::empty(),
        },
{
    let none = seq![a].drop_last();
    assert(none =~= Seq::<ActionView>::empty());
    assert(written_events(none) =~= Seq::<EventView>::empty());
    assert(delivered_data(none, sid) =~= Seq::<Seq<u8>>::empty());
    assert(written_events(seq![a]) =~= match a {
        ActionView::Write(ev) => seq![ev],
        _ => Seq::<EventView>::empty(),
    });
    assert(delivered_data(seq![a], sid) =~= match a {
        ActionView::Deliver(k, Some(data)) => if k == sid {
            seq![data]
        } else {
            Seq::<Seq<u8>>::empty()
        },
        _ => Seq::<Seq<u8>>::empty(),
    });
}

/// Another flow in its place: the windows are kept, and nothing else has changed.
proof fn lemma_with_flow(s: DispatchView, sid: u32, flow_id: u64, f: FlowView)
    requires
        s.wf(),
        s.flow_at(sid, flow_id) is Some,
    ensures
        s.with_flow(sid, flow_id, f).wf(),
        s.with_flow(sid, flow_id, f).window == s.window,
        s.with_flow(sid, flow_id, f).flow_at(sid, flow_id) == Some(f),
        s.with_flow(sid, flow_id, f).opened.dom() == s.opened.dom(),
        s.with_flow(sid, flow_id, f).entries.dom() == s.entries.dom(),
{
    let t = s.with_flow(sid, flow_id, f);
    assert(t.opened.dom() =~= s.opened.dom());
    assert(t.entries.dom() =~= s.entries.dom());
}

proof fn lemma_write_is_sound(
    pre: Transfer,
    post: Transfer,
    data: Seq<u8>,
    whole: bool,
    waker: Waker,
    reserve: Reserve,
    step: WriteStep,
)
    requires
        pre.sound(),
        is_move(pre, post, Move::Write(data, whole, waker, reserve, step)),
    ensures
        post.sound(),
{
    let f = pre.flow();
    let g = connection::after_write(f, data, whole, waker, reserve);
    lemma_with_flow(pre.sender, pre.writer.id, pre.writer.flow, g);
    if step is Send {
        let sent = buf::bytes_of(step->Send_0);
        lemma_control_push(pre.control, ControlView::StreamData(pre.sid(), sent, false));
        assert(post.under_way() =~= pre.under_way() + sent);
        assert(post.written =~= post.read + post.under_way());
    } else {
        assert(post.written =~= pre.written);
    }
    assert(post.windows_agree());
    assert(post.control_in_order());
    assert(post.announced());
}

proof fn lemma_shutdown_is_sound(pre: Transfer, post: Transfer)
    requires
        pre.sound(),
        is_move(pre, post, Move::Shutdown),
    ensures
        post.sound(),
{
    let c = ControlView::StreamShutdown(pre.sid(), false);
    lemma_control_push(pre.control, c);
    assert(post.under_way() =~= pre.under_way());
    assert(post.control.last() == c);
    assert(post.control_in_order());
    assert(post.announced());
}

proof fn lemma_send_is_sound(pre: Transfer, post: Transfer)
    requires
        pre.sound(),
        is_move(pre, post, Move::Send),
    ensures
        post.sound(),
{
    let sid = pre.sid();
    let c = pre.control[0];
    let d = connection::dispatch(pre.sender, c);
    let ev = if c == pre.announcement() {
        syn(sid)
    } else if c is StreamData {
        event::event_of(FLAG_DATA, sid, control_data(c))
    } else {
        event::event_of(FLAG_SHUTDOWN, sid, Seq::empty())
    };
    assert(d.actions =~= seq![ActionView::Write(ev)]);
    lemma_single_action(ActionView::Write(ev), sid);
    connection::dispatch_keeps_the_windows(pre.sender, c);
    assert(post.wire =~= pre.wire.push(ev));
    lemma_control_skip(pre.control);
    lemma_wire_push(pre.wire, ev);
    assert(ev.body =~= control_data(c));
    assert(post.under_way() =~= pre.under_way());
    assert(post.flow() == pre.flow());
    assert forall|i: int| 0 <= i < post.control.len() implies #[trigger] post.control[i]
        == pre.control[i + 1] by {}
    assert(post.control_in_order());
    assert(post.announced());
    assert(post.wire_in_order());
    assert(post.end_is_somewhere());
}

proof fn lemma_arrive_is_sound(pre: Transfer, post: Transfer)
    requires
        pre.sound(),
        is_move(pre, post, Move::Arrive),
    ensures
        post.sound(),
{
    let sid = pre.sid();
    let ev = pre.wire[0];
    let c = connection::frame_of(ev)->Control_0;
    let d = connection::dispatch(pre.receiver, c);
    connection::frames_mean_the_same_to_the_peer(sid, ev.body, 0);
    connection::dispatch_keeps_the_windows(pre.receiver, c);
    lemma_wire_skip(pre.wire);
    lemma_total_is_natural(pre.back);
    assert forall|i: int| 0 <= i < post.wire.len() implies #[trigger] post.wire[i] == pre.wire[i
        + 1] by {}
    if ev == syn(sid) {
        assert(delivered_data(d.actions, sid) =~= Seq::<Seq<u8>>::empty()) by {
            if d.actions.len() > 0 {
                assert(d.actions =~= seq![d.actions[0]]);
                lemma_single_action(d.actions[0], sid);
            }
        }
        assert(post.queue =~= pre.queue);
    } else {
        let piece = ev.body;
        assert(d.actions =~= seq![ActionView::Deliver(sid, Some(piece))]);
        lemma_single_action(ActionView::Deliver(sid, Some(piece)), sid);
        assert(post.queue =~= pre.queue.push(piece));
        lemma_flatten_push(pre.queue, piece);
    }
    assert(post.under_way() =~= pre.under_way());
    assert(post.windows_agree());
    assert(post.backlog_agrees());
    assert(post.announced());
    assert(post.wire_in_order());
    assert(post.queue_in_order());
    assert(post.end_is_somewhere());
}

#[verifier::rlimit(30)]
proof fn lemma_read_is_sound(
    pre: Transfer,
    post: Transfer,
    inbound: Inbound,
    capacity: usize,
    step: ReadStep,
)
    requires
        pre.sound(),
        is_move(pre, post, Move::Read(inbound, capacity, step)),
    ensures
        post.sound(),
        capacity > 0 && pre.readable() ==> post.work() < pre.work(),
{
    let takes = pre.reader_takes() && pre.queue.len() > 0;
    lemma_total_is_natural(pre.updates);
    if takes {
        lemma_flatten_skip(pre.queue);
    }
    let from = if pre.reader.buffered.len() > 0 {
        pre.reader.buffered
    } else if takes {
        pre.queue[0]
    } else {
        Seq::empty()
    };
    if from.len() > 0 {
        let n = stream::fit(from.len(), capacity);
        assert(from.take(n) + from.skip(n) =~= from);
    }
    assert(stream::given(step) + post.reader.buffered =~= from);
    if let Some(n) = step.window_update {
        lemma_total_push(pre.updates, n);
    }
    assert(post.read + post.under_way() =~= pre.read + pre.under_way());
    assert forall|i: int| takes && 0 <= i < post.queue.len() implies #[trigger] post.queue[i]
        == pre.queue[i + 1] by {}
    assert(post.backlog_agrees());
    assert(post.queue_in_order());
    assert(post.end_is_somewhere());
}

proof fn lemma_flush_is_sound(pre: Transfer, post: Transfer)
    requires
        pre.sound(),
        is_move(pre, post, Move::Flush),
    ensures
        post.sound(),
{
    if let Some(n) = stream::owed(pre.reader) {
        lemma_total_push(pre.updates, n);
    }
    assert(post.under_way() =~= pre.under_way());
}

proof fn lemma_grant_is_sound(pre: Transfer, post: Transfer)
    requires
        pre.sound(),
        is_move(pre, post, Move::Grant),
    ensures
        post.sound(),
{
    lemma_total_is_natural(pre.updates);
    lemma_total_is_natural(pre.updates.skip(1));
    lemma_total_push(pre.back, pre.updates[0]);
    connection::grant_keeps_the_windows(pre.receiver, pre.sid(), pre.updates[0]);
    assert(post.under_way() =~= pre.under_way());
    assert(post.windows_agree());
    assert(post.backlog_agrees());
    assert(post.announced());
}

proof fn lemma_credit_is_sound(pre: Transfer, post: Transfer)
    requires
        pre.sound(),
        is_move(pre, post, Move::Credit),
    ensures
        post.sound(),
        post.flow().parked is None,
{
    let n = pre.back[0];
    connection::frames_mean_the_same_to_the_peer(pre.sid(), Seq::empty(), n);
    let c = ControlView::WindowUpdateFromPeer(pre.sid(), n);
    assert(connection::frame_of(grant(pre.sid(), n)) == FrameView::Control(c));
    connection::dispatch_keeps_the_windows(pre.sender, c);
    lemma_total_is_natural(pre.back);
    lemma_total_is_natural(pre.back.skip(1));
    assert(post.under_way() =~= pre.under_way());
    assert(post.windows_agree());
    assert(post.announced());
}

proof fn lemma_other_is_sound(pre: Transfer, post: Transfer)
    requires
        pre.sound(),
        is_move(pre, post, Move::Other),
    ensures
        post.sound(),
{
    assert(post.under_way() =~= pre.under_way());
    assert(post.backlog_agrees());
    assert(post.announced());
}

/// A transfer that has just started is sound.
pub proof fn start_is_sound(t: Transfer)
    requires
        t.starts(),
    ensures
        t.sound(),
{
    assert(control_pieces(t.control) =~= seq![Seq::<u8>::empty()]);
    assert(control_pieces(t.control).drop_first() =~= Seq::<Seq<u8>>::empty());
    assert(control_pieces(t.control).drop_first().flatten() =~= Seq::<u8>::empty());
    assert(control_pieces(t.control).flatten() =~= Seq::<u8>::empty());
    assert(wire_pieces(t.wire).flatten() =~= Seq::<u8>::empty());
    assert(t.queue.flatten() =~= Seq::<u8>::empty());
    assert(t.written =~= t.read + t.under_way());
    assert(t.reader.eof ==> t.reader.buffered.len() == 0);
}

/// Opening a stream starts a transfer: its flow is there with the whole window, before the
/// announcement has been acted on.
pub proof fn opened_stream_can_be_written(s: DispatchView, sid: u32)
    requires
        s.wf(),
    ensures
        s.opening().wf(),
        s.opening().window == s.window,
        s.opening().entries == s.entries,
        s.opening().opened.contains_key(s.next_flow),
        s.opening().flow_at(sid, s.next_flow) == Some(
            FlowView { send_window: s.window, parked: None },
        ),
{
}

/// Every move keeps a transfer sound.
pub proof fn moves_are_sound(pre: Transfer, post: Transfer, m: Move)
    requires
        pre.sound(),
        is_move(pre, post, m),
    ensures
        post.sound(),
{
    match m {
        Move::Write(data, whole, waker, reserve, step) => lemma_write_is_sound(
            pre,
            post,
            data,
            whole,
            waker,
            reserve,
            step,
        ),
        Move::Shutdown => lemma_shutdown_is_sound(pre, post),
        Move::Send => lemma_send_is_sound(pre, post),
        Move::Arrive => lemma_arrive_is_sound(pre, post),
        Move::Read(inbound, capacity, step) => lemma_read_is_sound(
            pre,
            post,
            inbound,
            capacity,
            step,
        ),
        Move::Flush => lemma_flush_is_sound(pre, post),
        Move::Grant => lemma_grant_is_sound(pre, post),
        Move::Credit => lemma_credit_is_sound(pre, post),
        Move::Other => lemma_other_is_sound(pre, post),
    }
}

/// The moves are made one after the other, with the states between them.
pub open spec fn is_transfer(states: Seq<Transfer>, moves: Seq<Move>) -> bool {
    &&& states.len() == moves.len() + 1
    &&& forall|i: int|
        0 <= i < moves.len() ==> is_move(states[i], states[i + 1], #[trigger] moves[i])
}

/// Whatever the moves and their order: what has been read is what was written first, and the rest
/// is under way, in order; the peer never has to close the stream; the reader is told of the end
/// only after it has read everything; and when nothing is under way any more, everything that was
/// written has been read, the end too, and at least half of the window is there to write in, so
/// that a writer that waited for no more than that has been woken.
pub proof fn everything_written_is_read(states: Seq<Transfer>, moves: Seq<Move>, n: int)
    requires
        is_transfer(states, moves),
        states[0].starts(),
        states[0].sender.window > 0,
        0 <= n <= moves.len(),
    ensures
        states[n].sound(),
        states[n].written == states[n].read + states[n].under_way(),
        states[n].joined() ==> states[n].receiver.entries[states[n].sid()].receiver_open,
        states[n].reader.eof ==> states[n].writer.ending && states[n].read == states[n].written,
        states[n].idle() ==> {
            let t = states[n];
            let half = t.sender.window - t.sender.window / 2;
            &&& t.read == t.written
            &&& t.writer.ending ==> t.reader.eof
            &&& t.flow().send_window > 0
            &&& t.flow().send_window >= half
            &&& 0 < t.wanted <= half ==> t.flow().parked is None
        },
        states[n].sender.window == states[0].sender.window,
    decreases n,
{
    if n == 0 {
        start_is_sound(states[0]);
    } else {
        everything_written_is_read(states, moves, n - 1);
        let m = moves[n - 1];
        moves_are_sound(states[n - 1], states[n], m);
        lemma_window_stays(states[n - 1], states[n], m);
    }
    let t = states[n];
    if t.reader.eof || t.idle() {
        lemma_nothing_under_way(t);
    }
}

proof fn lemma_window_stays(pre: Transfer, post: Transfer, m: Move)
    requires
        pre.sound(),
        is_move(pre, post, m),
    ensures
        post.sender.window == pre.sender.window,
{
    if m is Write {
        let f = post.flow();
        lemma_with_flow(pre.sender, pre.writer.id, pre.writer.flow, f);
    }
}

/// At the end of the direction, and where nothing is under way, all has been read.
proof fn lemma_nothing_under_way(t: Transfer)
    requires
        t.sound(),
        t.reader.eof || t.idle(),
    ensures
        t.read == t.written,
        t.control.len() == 0,
        t.wire.len() == 0,
        t.queue.len() == 0,
        t.idle() ==> t.joined() && t.flow().send_window
            == t.sender.window - t.reader.consumed,
{
    assert(control_pieces(t.control).flatten() =~= Seq::<u8>::empty());
    assert(wire_pieces(t.wire).flatten() =~= Seq::<u8>::empty());
    assert(t.queue.flatten() =~= Seq::<u8>::empty());
    assert(t.under_way() =~= Seq::<u8>::empty());
    assert(t.read =~= t.written);
}

/// A transfer does not get stuck: each message that is acted on, each frame and each grant that
/// arrives, and each read of what is there leaves less to do, down to nothing.
pub proof fn moves_get_on(pre: Transfer, post: Transfer, m: Move)
    requires
        pre.sound(),
        is_move(pre, post, m),
        match m {
            Move::Send | Move::Arrive | Move::Grant | Move::Credit => true,
            Move::Read(_, capacity, _) => capacity > 0 && pre.readable(),
            _ => false,
        },
    ensures
        0 <= post.work() < pre.work(),
        post.work() == 0 <==> post.idle(),
{
    moves_are_sound(pre, post, m);
    match m {
        Move::Send => {
            let c = pre.control[0];
            let d = connection::dispatch(pre.sender, c);
            assert(d.actions.len() == 1);
            assert(d.actions =~= seq![d.actions[0]]);
            lemma_single_action(d.actions[0], pre.sid());
        },
        Move::Arrive => {
            let ev = pre.wire[0];
            let c = connection::frame_of(ev)->Control_0;
            let d = connection::dispatch(pre.receiver, c);
            connection::frames_mean_the_same_to_the_peer(pre.sid(), ev.body, 0);
            assert(d.actions.len() <= 1);
            if d.actions.len() == 1 {
                assert(d.actions =~= seq![d.actions[0]]);
                lemma_single_action(d.actions[0], pre.sid());
            }
        },
        Move::Read(inbound, capacity, step) => lemma_read_is_sound(
            pre,
            post,
            inbound,
            capacity,
            step,
        ),
        _ => {},
    }
    if post.idle() {
        lemma_nothing_under_way(post);
    }
}

/// What the writer's end does with messages about other streams does not concern the transfer,
/// nor does what the stream does in its other direction: data of the peer that keeps to the
/// window, its end, and what this end grants.
pub proof fn other_traffic_leaves_the_sender(t: Transfer, c: ControlView, increment: u32, k: u32)
    requires
        t.sound(),
        match c {
            ControlView::NewStream(p) => p.stream_id != t.sid() && p.flow != Some(t.writer.flow),
            ControlView::StreamData(sid, data, incoming) => sid != t.sid() || !incoming || (
            t.sender.entries.contains_key(sid) && data.len() <= t.sender.entries[sid].recv_window
                && t.sender.entries[sid].receiver_open),
            ControlView::StreamClose(sid, _) => sid != t.sid(),
            ControlView::WindowUpdateFromPeer(sid, _) => sid != t.sid(),
            _ => true,
        },
    ensures
        leaves_sender(t, connection::dispatch(t.sender, c).state),
        leaves_sender(t, connection::granted(t.sender, k, increment)),
{
    connection::dispatch_keeps_the_windows(t.sender, c);
    connection::grant_keeps_the_windows(t.sender, k, increment);
}

/// What the reader's end does with messages about other streams does not concern the transfer,
/// nor does what the stream does in its other direction: what is written there, its end, and what
/// the peer grants.
pub proof fn other_traffic_leaves_the_receiver(
    t: Transfer,
    c: ControlView,
    increment: u32,
    k: u32,
)
    requires
        t.sound(),
        match c {
            ControlView::NewStream(p) => p.stream_id != t.sid(),
            ControlView::StreamData(sid, _, incoming) => sid != t.sid() || !incoming,
            ControlView::StreamClose(sid, _) => sid != t.sid(),
            _ => true,
        },
        k != t.sid(),
    ensures
        leaves_receiver(t, connection::dispatch(t.receiver, c).state),
        leaves_receiver(t, connection::granted(t.receiver, k, increment)),
{
    connection::dispatch_keeps_the_windows(t.receiver, c);
    connection::grant_keeps_the_windows(t.receiver, k, increment);
}

} // verus!
