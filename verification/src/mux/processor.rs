//! One connection: events of its own go out, those of the peer come in, and tasks are run on its
//! session in between.

use vstd::prelude::*;
use crate::mux::common;
use crate::mux::event;
use crate::mux::event::EventView;
use crate::mux::message;
use crate::mux::session::{ChannelMuxSession, MuxAction, SessionView};
use crate::rmux::event::{new_empty_event, Event, FLAG_FIN, FLAG_PING, FLAG_SHUTDOWN, FLAG_SYN};

verus! {

/// What a turn came to.
#[derive(Debug, PartialEq, Eq, Structural, Clone, Copy)]
pub enum Polled {
    Ready,
    NotReady,
    Reset,
}

/// What a source of events gave.
pub enum EventPoll {
    Event(Event),
    End,
    Failed,
    Pending,
}

/// What a turn of the connection's own events does next.
pub enum LocalStep {
    /// The turn is over; a shutdown goes into the queue where the connection was closed.
    Return(Polled, Option<Event>),
    /// The event is sent. It is a new one, or the one that could not be sent before; a new one may
    /// close its stream, and that event goes into the queue.
    Send { event: Event, fresh: bool, fin: Option<Event> },
    /// There is nothing to send.
    Flush,
}

/// What became of the event that was to be sent.
pub enum Sending {
    Nothing,
    Accepted,
    /// It has to be sent again.
    Busy(Event),
    Failed,
}

/// What is run on the session.
pub enum Task {
    Open { proto: String, addr: String },
    Ping,
    Close,
}

pub enum TaskPoll {
    Task(Task),
    End,
    Failed,
    Pending,
}

pub struct MuxConnectionProcessor {
    session: ChannelMuxSession,
    last_unsent_event: Event,
    closed: bool,
}

#[verifier::ext_equal]
pub struct ProcessorView {
    pub session: SessionView,
    /// The event that could not be sent; the empty one where there is none.
    pub unsent: EventView,
    pub closed: bool,
}

impl View for MuxConnectionProcessor {
    type V = ProcessorView;

    closed spec fn view(&self) -> ProcessorView {
        ProcessorView {
            session: self.session@,
            unsent: self.last_unsent_event@,
            closed: self.closed,
        }
    }
}

/// No event.
pub open spec fn no_event() -> EventView {
    event::event_of(0, 0, Seq::empty())
}

impl ProcessorView {
    pub open spec fn wf(self) -> bool {
        self.session.wf()
    }

    pub open spec fn shut(self) -> ProcessorView {
        ProcessorView { closed: true, ..self }
    }

    /// What goes into the queue when the connection is closed.
    pub open spec fn farewell(self) -> Option<EventView> {
        if self.closed {
            None
        } else {
            Some(event::event_of(FLAG_SHUTDOWN, 0, Seq::empty()))
        }
    }

    /// Something waits to be sent again.
    pub open spec fn waits(self) -> bool {
        self.unsent.header().flag() != 0
    }

    /// The connection after a task.
    pub open spec fn after_task(self, task: Task) -> ProcessorView {
        match task {
            Task::Open { .. } => {
                let s = self.session;
                ProcessorView {
                    session: SessionView {
                        next: u32::wrapping_add(s.next, 2),
                        ..s.with(s.stream_or_fresh(s.next))
                    },
                    ..self
                }
            },
            _ => self,
        }
    }

    /// The event of a task.
    pub open spec fn task_event(self, task: Task) -> EventView {
        match task {
            Task::Open { proto, addr } => event::event_of(
                FLAG_SYN,
                self.session.next,
                message::text_block(proto@) + message::text_block(addr@),
            ),
            Task::Ping => event::event_of(FLAG_PING, 0, Seq::empty()),
            Task::Close => event::event_of(FLAG_SHUTDOWN, 0, Seq::empty()),
        }
    }

    /// The connection after its turn to send.
    pub open spec fn sent(self, fresh: bool, sending: Sending) -> ProcessorView {
        match sending {
            Sending::Busy(ev) => ProcessorView { unsent: ev@, ..self },
            Sending::Accepted => if fresh {
                self
            } else {
                ProcessorView { unsent: no_event(), ..self }
            },
            _ => self,
        }
    }
}

/// How a turn starts that takes `local` from the queue.
pub open spec fn starts(
    pre: ProcessorView,
    post: ProcessorView,
    local: EventPoll,
    step: LocalStep,
) -> bool {
    if pre.waits() {
        &&& post == pre
        &&& step matches LocalStep::Send { event, fresh, fin }
        &&& event@ == pre.unsent
        &&& !fresh
        &&& fin is None
    } else {
        match local {
            EventPoll::Pending => step is Flush && post == pre,
            EventPoll::End => step == LocalStep::Return(Polled::Ready, None) && post == pre,
            EventPoll::Failed => ends(pre, post, step),
            EventPoll::Event(ev) => {
                let flag = ev@.header().flag();
                let id = ev@.stream_id;
                if flag == FLAG_SHUTDOWN {
                    ends(pre, post, step)
                } else {
                    &&& step matches LocalStep::Send { event, fresh, fin }
                    &&& event@ == ev@
                    &&& fresh
                    &&& post == if flag == FLAG_FIN {
                        ProcessorView { session: pre.session.without(id), ..pre }
                    } else {
                        pre
                    }
                    &&& common::event_view(fin) == if flag == FLAG_FIN
                        && pre.session.streams.contains_key(id)
                        && !pre.session.streams[id].closed {
                        Some(event::event_of(FLAG_FIN, id, Seq::empty()))
                    } else {
                        None
                    }
                }
            },
        }
    }
}

/// The turn ends with a closed connection.
pub open spec fn ends(pre: ProcessorView, post: ProcessorView, step: LocalStep) -> bool {
    &&& post == pre.shut()
    &&& step matches LocalStep::Return(polled, out)
    &&& polled == Polled::Reset
    &&& common::event_view(out) == pre.farewell()
}

/// Whether something was done, after a flush.
pub open spec fn outcome(done: bool, flushed: bool) -> Polled {
    if !flushed {
        Polled::Reset
    } else if done {
        Polled::Ready
    } else {
        Polled::NotReady
    }
}

/// The end of a turn of the connection's own events.
pub open spec fn local_turn(
    pre: ProcessorView,
    post: ProcessorView,
    fresh: bool,
    sending: Sending,
    flushed: bool,
    polled: Polled,
    out: Option<Event>,
) -> bool {
    if sending is Failed || !flushed {
        &&& polled == Polled::Reset
        &&& common::event_view(out) == pre.farewell()
        &&& post == pre.sent(fresh, sending).shut()
    } else {
        &&& polled == outcome(fresh, flushed)
        &&& out is None
        &&& post == pre.sent(fresh, sending)
    }
}

/// A turn of the peer's events.
pub open spec fn remote_turn(
    pre: ProcessorView,
    post: ProcessorView,
    remote: EventPoll,
    flushed: bool,
    polled: Polled,
    action: MuxAction,
    out: Option<Event>,
) -> bool {
    let handled = match remote {
        EventPoll::Event(ev) => ProcessorView { session: pre.session.after(ev@), ..pre },
        _ => pre,
    };
    &&& match remote {
        EventPoll::Event(ev) => pre.session.asks(ev@, action),
        _ => action is Nothing,
    }
    &&& if remote is End || remote is Failed || !flushed {
        &&& polled == Polled::Reset
        &&& common::event_view(out) == pre.farewell()
        &&& post == handled.shut()
    } else {
        &&& polled == outcome(remote is Event, flushed)
        &&& out is None
        &&& post == handled
    }
}

/// A turn of the tasks.
pub open spec fn task_turn(
    pre: ProcessorView,
    post: ProcessorView,
    poll: TaskPoll,
    flushed: bool,
    polled: Polled,
    event: Option<Event>,
    out: Option<Event>,
) -> bool {
    let run = match poll {
        TaskPoll::Task(t) => pre.after_task(t),
        _ => pre,
    };
    &&& common::event_view(event) == match poll {
        TaskPoll::Task(t) => Some(pre.task_event(t)),
        _ => None,
    }
    &&& if poll is Failed || (!(poll is End) && !flushed) {
        &&& polled == Polled::Reset
        &&& common::event_view(out) == pre.farewell()
        &&& post == run.shut()
    } else {
        &&& polled == outcome(poll is End || poll is Task, true)
        &&& out is None
        &&& post == run
    }
}

/// What the three turns come to together.
pub open spec fn together(closed: bool, local: Polled, remote: Polled, task: Polled) -> Polled {
    if closed || local == Polled::Reset || remote == Polled::Reset || task == Polled::Reset {
        Polled::Reset
    } else if local == Polled::Ready || remote == Polled::Ready || task == Polled::Ready {
        Polled::Ready
    } else {
        Polled::NotReady
    }
}

impl MuxConnectionProcessor {
    pub fn new(is_client: bool, id: u32) -> (r: MuxConnectionProcessor)
        ensures
            r@.wf(),
            !r@.closed,
            !r@.waits(),
            r@.unsent == no_event(),
            r@.session == (SessionView {
                id,
                next: if is_client {
                    1
                } else {
                    2
                },
                streams: Map::empty(),
            }),
    {
        proof {
            event::pack_unpacks(0, 0, 0);
        }
        MuxConnectionProcessor {
            session: ChannelMuxSession::new(is_client, id),
            last_unsent_event: new_empty_event(false),
            closed: false,
        }
    }

    pub fn is_closed(&self) -> (r: bool)
        ensures
            r == self@.closed,
    {
        self.closed
    }

    /// The session, to read and write its streams.
    pub fn session(&mut self) -> (r: &mut ChannelMuxSession)
        ensures
            r@ == old(self)@.session,
            final(self)@ == (ProcessorView { session: final(r)@, ..old(self)@ }),
    {
        &mut self.session
    }

    /// Closes the connection; the event goes into the queue.
    pub fn close(&mut self) -> (r: Option<Event>)
        ensures
            final(self)@ == old(self)@.shut(),
            common::event_view(r) == old(self)@.farewell(),
    {
        if self.closed {
            return None;
        }
        self.closed = true;
        Some(self.session.close())
    }

    /// Starts a turn of the connection's own events. `local` counts only where nothing waits to be
    /// sent again.
    pub fn poll_local_event(&mut self, local: EventPoll) -> (r: LocalStep)
        requires
            old(self)@.wf(),
        ensures
            final(self)@.wf(),
            starts(old(self)@, final(self)@, local, r),
    {
        if !self.last_unsent_event.is_empty() {
            return LocalStep::Send {
                event: self.last_unsent_event.clone(),
                fresh: false,
                fin: None,
            };
        }
        match local {
            EventPoll::Pending => LocalStep::Flush,
            EventPoll::End => LocalStep::Return(Polled::Ready, None),
            EventPoll::Failed => {
                let out = self.close();
                LocalStep::Return(Polled::Reset, out)
            },
            EventPoll::Event(ev) => {
                let flags: u8 = ev.header.flags();
                if flags == FLAG_SHUTDOWN {
                    let out = self.close();
                    return LocalStep::Return(Polled::Reset, out);
                }
                let mut fin: Option<Event> = None;
                if flags == FLAG_FIN {
                    fin = self.session.close_stream(ev.header.stream_id, true);
                }
                LocalStep::Send { event: ev, fresh: true, fin }
            },
        }
    }

    /// Ends a turn of the connection's own events.
    pub fn local_event_sent(&mut self, fresh: bool, sending: Sending, flushed: bool) -> (r: (
        Polled,
        Option<Event>,
    ))
        requires
            old(self)@.wf(),
        ensures
            final(self)@.wf(),
            local_turn(old(self)@, final(self)@, fresh, sending, flushed, r.0, r.1),
    {
        match sending {
            Sending::Failed => {
                let out = self.close();
                return (Polled::Reset, out);
            },
            Sending::Busy(ev) => {
                self.last_unsent_event = ev;
            },
            Sending::Accepted => {
                if !fresh {
                    self.last_unsent_event = new_empty_event(false);
                }
            },
            Sending::Nothing => {},
        }
        if !flushed {
            let out = self.close();
            return (Polled::Reset, out);
        }
        if fresh {
            (Polled::Ready, None)
        } else {
            (Polled::NotReady, None)
        }
    }

    /// A turn of the peer's events.
    pub fn poll_remote_event(&mut self, remote: EventPoll, flushed: bool) -> (r: (
        Polled,
        MuxAction,
        Option<Event>,
    ))
        requires
            old(self)@.wf(),
        ensures
            final(self)@.wf(),
            remote_turn(old(self)@, final(self)@, remote, flushed, r.0, r.1, r.2),
    {
        let mut action = MuxAction::Nothing;
        let mut done: bool = false;
        match remote {
            EventPoll::End | EventPoll::Failed => {
                let out = self.close();
                return (Polled::Reset, action, out);
            },
            EventPoll::Event(ev) => {
                action = self.session.handle_mux_event(ev);
                done = true;
            },
            EventPoll::Pending => {},
        }
        if !flushed {
            let out = self.close();
            return (Polled::Reset, action, out);
        }
        if done {
            (Polled::Ready, action, None)
        } else {
            (Polled::NotReady, action, None)
        }
    }

    /// Runs a task on the session; the event goes into the queue.
    pub fn run_task(&mut self, task: Task) -> (r: Event)
        requires
            old(self)@.wf(),
        ensures
            final(self)@.wf(),
            final(self)@ == old(self)@.after_task(task),
            r@ == old(self)@.task_event(task),
    {
        match task {
            Task::Open { proto, addr } => {
                let (_, ev) = self.session.open_stream(proto.as_str(), addr.as_str());
                ev
            },
            Task::Ping => self.session.ping(),
            Task::Close => self.session.close(),
        }
    }

    /// A turn of the tasks. The events go into the queue: that of the task, and that of a
    /// connection which is closed.
    pub fn poll_task(&mut self, poll: TaskPoll, flushed: bool) -> (r: (
        Polled,
        Option<Event>,
        Option<Event>,
    ))
        requires
            old(self)@.wf(),
        ensures
            final(self)@.wf(),
            task_turn(old(self)@, final(self)@, poll, flushed, r.0, r.1, r.2),
    {
        let mut event: Option<Event> = None;
        let mut done: bool = false;
        match poll {
            TaskPoll::End => {
                return (Polled::Ready, None, None);
            },
            TaskPoll::Failed => {
                let out = self.close();
                return (Polled::Reset, None, out);
            },
            TaskPoll::Pending => {},
            TaskPoll::Task(task) => {
                event = Some(self.run_task(task));
                done = true;
            },
        }
        if !flushed {
            let out = self.close();
            return (Polled::Reset, event, out);
        }
        if done {
            (Polled::Ready, event, None)
        } else {
            (Polled::NotReady, event, None)
        }
    }

    /// What the three turns come to together. A turn that resets the connection is the last one.
    pub fn poll(&self, local: Polled, remote: Polled, task: Polled) -> (r: Polled)
        ensures
            r == together(self@.closed, local, remote, task),
    {
        if self.closed || local == Polled::Reset || remote == Polled::Reset || task
            == Polled::Reset {
            Polled::Reset
        } else if local == Polled::Ready || remote == Polled::Ready || task == Polled::Ready {
            Polled::Ready
        } else {
            Polled::NotReady
        }
    }
}

/// An event that could not be sent is what goes out next, whatever the queue holds: none is lost,
/// and none overtakes it.
pub proof fn busy_event_goes_out_next(
    s: ProcessorView,
    fresh: bool,
    ev: Event,
    local: EventPoll,
    post: ProcessorView,
    step: LocalStep,
)
    requires
        s.wf(),
        ev@.header().flag() != 0,
        starts(s.sent(fresh, Sending::Busy(ev)), post, local, step),
    ensures
        step matches LocalStep::Send { event, fresh: again, fin } && event@ == ev@ && !again && fin
            is None,
        post == s.sent(fresh, Sending::Busy(ev)),
{
}

/// A stream that one side closes is gone once its event went through the queue, and the peer hears
/// of it.
pub proof fn closed_stream_is_told(
    s: ProcessorView,
    ev: Event,
    post: ProcessorView,
    step: LocalStep,
)
    requires
        s.wf(),
        !s.waits(),
        ev@.header().flag() == FLAG_FIN,
        starts(s, post, EventPoll::Event(ev), step),
    ensures
        !post.session.streams.contains_key(ev@.stream_id),
        step matches LocalStep::Send { event, .. } && event@ == ev@,
{
}

/// A task to open a stream gives it the next number, and what goes out is read by the peer as a
/// request for the same address on that stream; the number after it is kept for the next one.
pub proof fn opened_stream_is_asked_of_the_peer(
    p: ProcessorView,
    task: Task,
    peer: SessionView,
    a: MuxAction,
)
    requires
        p.wf(),
        peer.wf(),
        task matches Task::Open { proto, addr } && message::fits(proto@) && message::fits(addr@),
        peer.asks(p.task_event(task), a),
    ensures
        ({
            let t = p.after_task(task).session;
            let id = p.session.next;
            &&& a is Relay
            &&& a->Relay_id == id
            &&& task matches Task::Open { proto, addr } && a->request@ == (proto@, addr@)
            &&& t.streams.contains_key(id)
            &&& t.next == u32::wrapping_add(id, 2)
            &&& p.task_event(task).stream_id == id
        }),
{
    if let Task::Open { proto, addr } = task {
        crate::mux::session::request_arrives(peer, p.session.next, proto@, addr@, a);
        let s = p.session;
        if s.streams.contains_key(s.next) {
            assert(s.streams[s.next].id == s.next);
        }
    }
}

/// A ping goes out as a ping and the end of the session as such, on no stream, and neither changes
/// the streams.
pub proof fn other_tasks_concern_the_session(p: ProcessorView)
    ensures
        p.task_event(Task::Ping).header().flag() == 5,
        p.task_event(Task::Close).header().flag() == 7,
        p.task_event(Task::Ping).stream_id == 0 && p.task_event(Task::Ping).body.len() == 0,
        p.task_event(Task::Close).stream_id == 0 && p.task_event(Task::Close).body.len() == 0,
        p.after_task(Task::Ping) == p,
        p.after_task(Task::Close) == p,
{
}

/// An event from this side goes out as it is, unless it ends the session: then the session is over
/// and the peer hears of it once. No event overtakes one that waits.
pub proof fn local_event_goes_out(
    pre: ProcessorView,
    ev: Event,
    post: ProcessorView,
    step: LocalStep,
)
    requires
        starts(pre, post, EventPoll::Event(ev), step),
    ensures
        pre.waits() ==> step is Send && step->event@ == pre.unsent && post == pre,
        !pre.waits() && ev@.header().flag() != 7 ==> {
            &&& step is Send
            &&& step->event@ == ev@
            &&& step->fresh
            &&& post.closed == pre.closed
        },
        !pre.waits() && ev@.header().flag() == 7 ==> {
            &&& post.closed
            &&& step is Return
            &&& match step {
                LocalStep::Return(polled, out) => {
                    &&& polled == Polled::Reset
                    &&& out is None <==> pre.closed
                    &&& out matches Some(bye) ==> bye@.header().flag() == 7 && bye@.body.len() == 0
                },
                _ => true,
            }
        },
{
}

/// An event that the connection took waits no more, one that it was too busy for waits, and no
/// other event is put in its place.
pub proof fn busy_event_waits(p: ProcessorView, ev: Event)
    ensures
        !p.sent(false, Sending::Accepted).waits(),
        p.sent(true, Sending::Accepted) == p,
        p.sent(false, Sending::Busy(ev)).unsent == ev@,
        p.sent(true, Sending::Busy(ev)).unsent == ev@,
        p.sent(true, Sending::Busy(ev)).session == p.session,
        p.sent(false, Sending::Accepted).session == p.session,
{
}

/// A turn resets the connection exactly when the connection fails or cannot be flushed, or the
/// peer is gone; the connection is then closed and, if it was not before, the peer is sent an end
/// of the session. Otherwise it stays as open as it was, and nothing is sent on its account.
pub proof fn failing_turns_close_the_connection(
    pre: ProcessorView,
    post: ProcessorView,
    remote: EventPoll,
    flushed: bool,
    polled: Polled,
    action: MuxAction,
    out: Option<Event>,
)
    requires
        remote_turn(pre, post, remote, flushed, polled, action, out),
    ensures
        polled == Polled::Reset <==> remote is End || remote is Failed || !flushed,
        polled == Polled::Reset ==> post.closed,
        polled == Polled::Reset ==> (out is Some <==> !pre.closed),
        out matches Some(bye) ==> bye@.header().flag() == 7 && bye@.stream_id == 0,
        polled != Polled::Reset ==> post.closed == pre.closed && out is None,
        polled != Polled::Reset ==> (polled == Polled::Ready <==> remote is Event),
        post.unsent == pre.unsent,
        !(remote is Event) ==> post.session == pre.session && action is Nothing,
{
}

/// The data that a peer sends on a stream with a reader is handed to that reader in the turn in
/// which it came.
pub proof fn data_is_handed_over_in_its_turn(
    pre: ProcessorView,
    post: ProcessorView,
    ev: Event,
    flushed: bool,
    polled: Polled,
    action: MuxAction,
    out: Option<Event>,
)
    requires
        remote_turn(pre, post, EventPoll::Event(ev), flushed, polled, action, out),
        ev@.header().flag() == 3,
        pre.session.streams.contains_key(ev@.stream_id),
        pre.session.streams[ev@.stream_id].reader,
    ensures
        action is Deliver,
        action->Deliver_id == ev@.stream_id,
        action->data@ == ev@.body,
        post.session == pre.session,
{
}

/// A task is done in the turn in which it came, even where the connection then fails: its event
/// goes out, and a new stream is there. Tasks that have ended do not close the connection.
pub proof fn task_is_done_in_its_turn(
    pre: ProcessorView,
    post: ProcessorView,
    poll: TaskPoll,
    flushed: bool,
    polled: Polled,
    event: Option<Event>,
    out: Option<Event>,
)
    requires
        task_turn(pre, post, poll, flushed, polled, event, out),
    ensures
        event is Some <==> poll is Task,
        polled == Polled::Reset <==> poll is Failed || (!(poll is End) && !flushed),
        polled == Polled::Reset ==> post.closed && (out is Some <==> !pre.closed),
        polled != Polled::Reset ==> post.closed == pre.closed && out is None,
        poll matches TaskPoll::Task(t) ==> match t {
            Task::Open { .. } => event->Some_0@.header().flag() == 1 && event->Some_0@.stream_id
                == pre.session.next && post.session.next == u32::wrapping_add(
                pre.session.next,
                2,
            ),
            Task::Ping => event->Some_0@.header().flag() == 5 && post.session == pre.session,
            Task::Close => event->Some_0@.header().flag() == 7 && post.session == pre.session,
        },
        !(poll is Task) ==> post.session == pre.session,
{
}

/// An event that could not be sent, or a connection that could not be flushed, ends the
/// connection; otherwise an event that was too much for it waits, and one that had waited does so
/// no more.
pub proof fn local_turn_sends_or_waits(
    pre: ProcessorView,
    post: ProcessorView,
    fresh: bool,
    sending: Sending,
    flushed: bool,
    polled: Polled,
    out: Option<Event>,
)
    requires
        local_turn(pre, post, fresh, sending, flushed, polled, out),
    ensures
        polled == Polled::Reset <==> sending is Failed || !flushed,
        polled == Polled::Reset ==> post.closed && (out is Some <==> !pre.closed),
        polled != Polled::Reset ==> post.closed == pre.closed && out is None,
        sending matches Sending::Busy(ev) ==> post.unsent == ev@,
        sending is Accepted && !fresh ==> !post.waits(),
        sending is Accepted && fresh ==> post.unsent == pre.unsent,
        post.session == pre.session,
{
}

/// One turn that resets resets the whole, and so does a connection that is closed; short of that
/// one turn that got on is enough to go on.
pub proof fn turns_come_together(closed: bool, local: Polled, remote: Polled, task: Polled)
    ensures
        together(closed, local, remote, task) == Polled::Reset <==> closed || local is Reset
            || remote is Reset || task is Reset,
        together(closed, local, remote, task) == Polled::NotReady <==> !closed && local is NotReady
            && remote is NotReady && task is NotReady,
{
}

} // verus!
