//! One stream of a multiplexed connection: its send window, and what its reads and writes do.

use bytes::Bytes;
use futures::task::AtomicWaker;
use std::task::Waker;
use vstd::prelude::*;
use crate::buf;
use crate::buf::{bytes_from_vec, bytes_len, bytes_new, bytes_range};
use crate::mux::event::MAX_EVENT_BODY_LEN;

verus! {

/// `futures::task::AtomicWaker`: a cell that holds at most one waker.
#[verifier::external_type_specification]
#[verifier::external_body]
pub struct ExAtomicWaker(AtomicWaker);

/// `std::task::Waker`: the handle that wakes a task.
#[verifier::external_type_specification]
#[verifier::external_body]
pub struct ExWaker(Waker);

/// The waker that the cell holds, if there is one.
pub uninterp spec fn waker_in(cell: AtomicWaker) -> Option<Waker>;

/// `AtomicWaker::new`: the cell is empty.
#[verifier::external_body]
fn waker_cell() -> (r: AtomicWaker)
    ensures
        waker_in(r) is None,
{
    AtomicWaker::new()
}

/// What a cell that held `held` holds after `AtomicWaker::register` was called on it with a
/// waker: what it held, where that wakes the same task, and a clone of the given one otherwise.
pub uninterp spec fn registered(held: Option<Waker>, waker: Waker) -> Waker;

/// The cell after `AtomicWaker::wake` was called on it.
pub uninterp spec fn after_wake(cell: AtomicWaker) -> AtomicWaker;

/// `AtomicWaker::register`: the cell holds a waker of the task, in place of what it held.
#[verifier::external_body]
fn register(cell: &mut AtomicWaker, waker: &Waker)
    ensures
        waker_in(*final(cell)) == Some(registered(waker_in(*old(cell)), *waker)),
{
    cell.register(waker);
}

/// `AtomicWaker::wake`: takes the waker out of the cell, if there is one, and wakes its task.
#[verifier::external_body]
fn wake(cell: &mut AtomicWaker)
    ensures
        *final(cell) == after_wake(*old(cell)),
        waker_in(*final(cell)) is None,
{
    cell.wake();
}

/// `AtomicWaker::take`: takes the waker out of the cell, if there is one.
#[verifier::external_body]
fn take_waker(cell: &mut AtomicWaker) -> (r: Option<Waker>)
    ensures
        r == waker_in(*old(cell)),
        waker_in(*final(cell)) is None,
{
    cell.take()
}

/// The send side of one stream: how many bytes the peer is still ready to take.
///
/// The dispatcher credits the window when the peer grants more and closes the flow; the
/// stream's writer takes from the window and parks its waker when it is empty.
pub struct StreamFlow {
    send_window: u32,
    closed: bool,
    write_waker: AtomicWaker,
}

impl StreamFlow {
    /// The bytes granted and not yet used, whether or not the flow is closed.
    pub closed spec fn window(self) -> u32 {
        self.send_window
    }

    pub closed spec fn shut(self) -> bool {
        self.closed
    }

    /// The waker of the writer that waits to be woken, if one does.
    pub closed spec fn parked(self) -> Option<Waker> {
        waker_in(self.write_waker)
    }

    /// The writer that was parked in `pre`, if there was one, has been woken.
    pub closed spec fn woken_since(self, pre: StreamFlow) -> bool {
        self.write_waker == after_wake(pre.write_waker)
    }

    /// The writer with this waker is parked, in place of any that was in `pre`.
    pub open spec fn parked_since(self, pre: StreamFlow, waker: Waker) -> bool {
        self.parked() == Some(registered(pre.parked(), waker))
    }

    /// The bytes that may be sent now.
    pub open spec fn avail(self) -> u32 {
        if self.shut() {
            0
        } else {
            self.window()
        }
    }

    /// A credit: adds to the window and wakes a parked writer, unless the flow is closed.
    pub open spec fn credits(self, post: StreamFlow, increment: u32) -> bool {
        if self.shut() {
            post == self
        } else {
            &&& !post.shut()
            &&& post.window() == self.window().wrapping_add(increment)
            &&& post.woken_since(self)
            &&& post.parked() is None
        }
    }

    /// A write takes `n` bytes from the window, as many of those it wants as there are.
    pub open spec fn consumes(self, post: StreamFlow, desired: usize, n: usize) -> bool {
        &&& n == if desired <= self.avail() {
            desired as int
        } else {
            self.avail() as int
        }
        &&& post.window() == self.window() - n
        &&& post.shut() == self.shut()
        &&& post.parked() == self.parked()
    }

    /// The close: for good, and a parked writer is woken.
    pub open spec fn closes(self, post: StreamFlow) -> bool {
        &&& post.shut()
        &&& post.window() == self.window()
        &&& post.woken_since(self)
        &&& post.parked() is None
    }

    pub fn new(initial_window: u32) -> (r: StreamFlow)
        ensures
            r.window() == initial_window,
            !r.shut(),
            r.parked() is None,
    {
        StreamFlow { send_window: initial_window, closed: false, write_waker: waker_cell() }
    }

    pub fn available(&self) -> (r: u32)
        ensures
            r == self.avail(),
    {
        if self.closed {
            return 0;
        }
        self.send_window
    }

    /// Adds to the window and wakes a parked writer. A closed flow stays as it is.
    pub fn credit(&mut self, increment: u32)
        ensures
            old(self).credits(*final(self), increment),
    {
        if self.closed {
            return;
        }
        self.send_window = self.send_window.wrapping_add(increment);
        wake(&mut self.write_waker);
    }

    /// Adds to the window and gives the parked writer, for the caller to wake. A closed flow stays
    /// as it is.
    pub fn grant(&mut self, increment: u32) -> (r: Option<Waker>)
        ensures
            final(self).shut() == old(self).shut(),
            old(self).shut() ==> *final(self) == *old(self) && r is None,
            !old(self).shut() ==> {
                &&& final(self).window() == old(self).window().wrapping_add(increment)
                &&& r == old(self).parked()
                &&& final(self).parked() is None
            },
    {
        if self.closed {
            return None;
        }
        self.send_window = self.send_window.wrapping_add(increment);
        take_waker(&mut self.write_waker)
    }

    /// Takes up to `desired` bytes from the window, and says how many.
    pub fn try_consume(&mut self, desired: usize) -> (n: usize)
        ensures
            old(self).consumes(*final(self), desired, n),
    {
        if self.closed {
            return 0;
        }
        let n: usize = if desired <= self.send_window as usize {
            desired
        } else {
            self.send_window as usize
        };
        self.send_window = self.send_window - n as u32;
        n
    }

    /// Parks the writer's waker.
    pub fn register_waker(&mut self, waker: &Waker)
        ensures
            final(self).window() == old(self).window(),
            final(self).shut() == old(self).shut(),
            final(self).parked_since(*old(self), *waker),
    {
        register(&mut self.write_waker, waker);
    }

    pub fn is_closed(&self) -> (r: bool)
        ensures
            r == self.shut(),
    {
        self.closed
    }

    /// Closes the flow for good and wakes a parked writer.
    pub fn close(&mut self)
        ensures
            old(self).closes(*final(self)),
    {
        self.closed = true;
        wake(&mut self.write_waker);
    }

    /// Closes the flow for good and gives the parked writer, for the caller to wake.
    pub fn end(&mut self) -> (r: Option<Waker>)
        ensures
            final(self).shut(),
            final(self).window() == old(self).window(),
            r == old(self).parked(),
            final(self).parked() is None,
    {
        self.closed = true;
        take_waker(&mut self.write_waker)
    }
}

/// A stream that joins the connection: opened here, or by the peer.
#[derive(Debug, PartialEq, Eq, Structural, Clone, Copy)]
pub struct NewStreamParams {
    pub stream_id: u32,
    /// The flow of a stream that was opened here; the peer's stream has none yet.
    pub flow: Option<u64>,
}

/// A message to the dispatcher of a connection.
pub enum Control {
    AcceptStream,
    NewStream(NewStreamParams),
    /// The stream, the data, and whether it came from the peer.
    StreamData(u32, Bytes, bool),
    /// The stream, and whether the peer ends its direction.
    StreamShutdown(u32, bool),
    /// The stream, and whether the peer closed it.
    StreamClose(u32, bool),
    WindowUpdateFromPeer(u32, u32),
    Ping(u32),
    Pong(u32),
    Close,
}

/// What a control message says.
pub enum ControlView {
    AcceptStream,
    NewStream(NewStreamParams),
    StreamData(u32, Seq<u8>, bool),
    StreamShutdown(u32, bool),
    StreamClose(u32, bool),
    WindowUpdateFromPeer(u32, u32),
    Ping(u32),
    Pong(u32),
    Close,
}

impl View for Control {
    type V = ControlView;

    open spec fn view(&self) -> ControlView {
        match *self {
            Control::AcceptStream => ControlView::AcceptStream,
            Control::NewStream(p) => ControlView::NewStream(p),
            Control::StreamData(sid, data, incoming) => ControlView::StreamData(
                sid,
                buf::bytes_of(data),
                incoming,
            ),
            Control::StreamShutdown(sid, remote) => ControlView::StreamShutdown(sid, remote),
            Control::StreamClose(sid, remote) => ControlView::StreamClose(sid, remote),
            Control::WindowUpdateFromPeer(sid, inc) => ControlView::WindowUpdateFromPeer(sid, inc),
            Control::Ping(nonce) => ControlView::Ping(nonce),
            Control::Pong(nonce) => ControlView::Pong(nonce),
            Control::Close => ControlView::Close,
        }
    }
}

/// What the inbound queue of a stream gave.
pub enum Inbound {
    /// A piece of data; an empty one ends the peer's direction.
    Data(Bytes),
    /// The stream was reset.
    Reset,
    /// The queue is gone.
    Gone,
    /// Nothing yet.
    Pending,
}

/// What a read gave.
pub enum ReadOutcome {
    /// These bytes, at most as many as asked for; none at the end of the stream.
    Ready(Bytes),
    /// The connection was reset: "close by remote".
    Reset,
    Pending,
}

/// A read, and the window to grant the peer because of it.
pub struct ReadStep {
    pub outcome: ReadOutcome,
    pub window_update: Option<u32>,
}

/// The state of the control queue when a slot in it is asked for.
#[derive(Debug, PartialEq, Eq, Structural, Clone, Copy)]
pub enum Reserve {
    Ready,
    Pending,
    /// The queue is gone.
    Failed,
}

/// What a write came to.
pub enum WriteStep {
    /// Broken pipe: "stream closed".
    Closed,
    /// The control queue is gone.
    Failed,
    /// The writer has been parked, or the queue will wake it.
    Pending,
    /// There was nothing to write.
    Nothing,
    /// These bytes go out.
    Send(Bytes),
}

/// What ending a stream asks of its owner: a last window grant, and a message.
pub struct EndStep {
    pub window_update: Option<u32>,
    pub control: Option<Control>,
}

/// The stream's own state.
pub struct MuxStream {
    conn_id: u32,
    id: u32,
    flow: u64,
    recv_buf: Bytes,
    initial_close: bool,
    close_by_remote: bool,
    read_eof: bool,
    reader_closed: bool,
    consumed_since_update: u32,
    window_update_threshold: u32,
}

/// What a stream's state holds.
pub struct StreamView {
    pub conn_id: u32,
    pub id: u32,
    /// The number of the flow that the stream writes through.
    pub flow: u64,
    /// Data that came in and has not been read.
    pub buffered: Seq<u8>,
    /// The shutdown has been announced.
    pub ending: bool,
    /// The peer reset the stream.
    pub reset: bool,
    /// The peer ended its direction.
    pub eof: bool,
    /// No more inbound data is taken.
    pub reader_closed: bool,
    /// Bytes read since the last window grant.
    pub consumed: u32,
    /// Bytes after which the next window grant is due.
    pub threshold: u32,
}

impl StreamView {
    /// A stream as it starts out: it grants more once half of its window has been read.
    pub open spec fn fresh(
        conn_id: u32,
        id: u32,
        flow: u64,
        initial_stream_window: u32,
    ) -> StreamView {
        StreamView {
            conn_id,
            id,
            flow,
            buffered: Seq::empty(),
            ending: false,
            reset: false,
            eof: false,
            reader_closed: false,
            consumed: 0,
            threshold: initial_stream_window / 2,
        }
    }

    /// Less than a grant is owed to the peer.
    pub open spec fn wf(self) -> bool {
        &&& self.consumed < self.threshold || self.consumed == 0
        &&& self.threshold <= 0x7fff_ffff
        &&& self.buffered.len() <= MAX_EVENT_BODY_LEN
    }

    /// Reading `n` of the bytes `from`: the rest is kept, and the grant is due at the threshold.
    pub open spec fn after_read(self, from: Seq<u8>, n: int) -> StreamView {
        let consumed = self.consumed + n;
        StreamView {
            buffered: from.skip(n),
            consumed: if consumed >= self.threshold {
                0
            } else {
                consumed as u32
            },
            ..self
        }
    }

    /// The grant that reading `n` bytes makes due.
    pub open spec fn grant_for(self, n: int) -> Option<u32> {
        if self.consumed + n >= self.threshold {
            Some((self.consumed + n) as u32)
        } else {
            None
        }
    }
}

/// How many of `len` bytes fit into `capacity`.
pub open spec fn fit(len: nat, capacity: usize) -> int {
    if len <= capacity {
        len as int
    } else {
        capacity as int
    }
}

impl View for MuxStream {
    type V = StreamView;

    closed spec fn view(&self) -> StreamView {
        StreamView {
            conn_id: self.conn_id,
            id: self.id,
            flow: self.flow,
            buffered: buf::bytes_of(self.recv_buf),
            ending: self.initial_close,
            reset: self.close_by_remote,
            eof: self.read_eof,
            reader_closed: self.reader_closed,
            consumed: self.consumed_since_update,
            threshold: self.window_update_threshold,
        }
    }
}

/// The result of a read that hands out the first bytes of `from`.
pub open spec fn reads_from(
    pre: StreamView,
    post: StreamView,
    step: ReadStep,
    from: Seq<u8>,
    capacity: usize,
) -> bool {
    let n = fit(from.len(), capacity);
    &&& step.outcome is Ready
    &&& buf::bytes_of(step.outcome->Ready_0) == from.take(n)
    &&& step.window_update == pre.grant_for(n)
    &&& post == pre.after_read(from, n)
}

/// What a read comes to, given what the inbound queue gave.
pub open spec fn reads(
    pre: StreamView,
    post: StreamView,
    inbound: Inbound,
    capacity: usize,
    step: ReadStep,
) -> bool {
    if pre.buffered.len() > 0 {
        reads_from(pre, post, step, pre.buffered, capacity)
    } else if pre.eof {
        &&& step.outcome is Ready
        &&& buf::bytes_of(step.outcome->Ready_0).len() == 0
        &&& step.window_update is None
        &&& post == StreamView { reader_closed: true, ..pre }
    } else {
        match inbound {
            Inbound::Data(b) => if buf::bytes_of(b).len() > 0 {
                reads_from(pre, post, step, buf::bytes_of(b), capacity)
            } else {
                &&& step.outcome is Ready
                &&& buf::bytes_of(step.outcome->Ready_0).len() == 0
                &&& step.window_update is None
                &&& post == StreamView { eof: true, reader_closed: true, ..pre }
            },
            Inbound::Reset => {
                &&& step.outcome is Reset
                &&& step.window_update is None
                &&& post == StreamView { reset: true, reader_closed: true, ..pre }
            },
            Inbound::Gone => {
                &&& step.outcome is Reset
                &&& step.window_update is None
                &&& post == StreamView { reader_closed: true, ..pre }
            },
            Inbound::Pending => {
                &&& step.window_update is None
                &&& pre.reset ==> step.outcome is Reset && post == StreamView {
                    reader_closed: true,
                    ..pre
                }
                &&& !pre.reset ==> step.outcome is Pending && post == pre
            },
        }
    }
}

/// A write of as much of `data` as the window allows.
pub open spec fn writes(
    s: StreamView,
    pre: StreamFlow,
    post: StreamFlow,
    waker: Waker,
    data: Seq<u8>,
    reserve: Reserve,
    step: WriteStep,
) -> bool {
    if s.reset || pre.shut() {
        step is Closed && post == pre
    } else if data.len() == 0 {
        step is Nothing && post == pre
    } else if pre.avail() == 0 || reserve == Reserve::Pending {
        &&& step is Pending
        &&& post.parked_since(pre, waker)
        &&& post.window() == pre.window()
        &&& !post.shut()
    } else if reserve == Reserve::Failed {
        step is Failed && post == pre
    } else {
        let n = fit(data.len(), pre.avail() as usize);
        &&& step is Send
        &&& buf::bytes_of(step->Send_0) == data.take(n)
        &&& post.window() == pre.window() - n
        &&& !post.shut()
        &&& post.parked() == pre.parked()
    }
}

/// A write of all of `data` or of nothing.
pub open spec fn writes_whole(
    s: StreamView,
    pre: StreamFlow,
    post: StreamFlow,
    waker: Waker,
    data: Seq<u8>,
    reserve: Reserve,
    step: WriteStep,
) -> bool {
    let len = data.len();
    if s.reset || pre.shut() {
        step is Closed && post == pre
    } else if len == 0 {
        step is Nothing && post == pre
    } else if pre.avail() < len || reserve == Reserve::Pending {
        &&& step is Pending
        &&& post.parked_since(pre, waker)
        &&& post.window() == pre.window()
        &&& !post.shut()
    } else if reserve == Reserve::Failed {
        step is Failed && post == pre
    } else {
        &&& step is Send
        &&& buf::bytes_of(step->Send_0) == data
        &&& post.window() == pre.window() - len
        &&& !post.shut()
        &&& post.parked() == pre.parked()
    }
}

/// The end of this side's direction.
pub open spec fn shuts_down(pre: StreamView, post: StreamView, step: EndStep) -> bool {
    &&& pre.ending ==> step.window_update is None && step.control is None && post == pre
    &&& !pre.ending ==> {
        &&& step.window_update == owed(pre)
        &&& step.control == Some(Control::StreamShutdown(pre.id, false))
        &&& post == (StreamView { ending: true, consumed: 0, ..pre })
    }
}

/// The giving up of a stream.
pub open spec fn gives_up(pre: StreamView, post: StreamView, step: EndStep) -> bool {
    &&& step.window_update == owed(pre)
    &&& step.control == if pre.reset {
        None
    } else {
        Some(Control::StreamClose(pre.id, false))
    }
    &&& post == (StreamView { consumed: 0, ..pre })
}

impl MuxStream {
    pub fn new(conn_id: u32, id: u32, flow: u64, initial_stream_window: u32) -> (r: MuxStream)
        ensures
            r@ == StreamView::fresh(conn_id, id, flow, initial_stream_window),
            r@.wf(),
    {
        MuxStream {
            conn_id,
            id,
            flow,
            recv_buf: bytes_new(),
            initial_close: false,
            close_by_remote: false,
            read_eof: false,
            reader_closed: false,
            consumed_since_update: 0,
            window_update_threshold: initial_stream_window / 2,
        }
    }

    pub fn id(&self) -> (r: u32)
        ensures
            r == self@.id,
    {
        self.id
    }

    /// The number of the flow that the stream writes through.
    pub fn flow(&self) -> (r: u64)
        ensures
            r == self@.flow,
    {
        self.flow
    }

    /// Whether no more inbound data is taken.
    pub fn is_reader_closed(&self) -> (r: bool)
        ensures
            r == self@.reader_closed,
    {
        self.reader_closed
    }

    fn close_reader(&mut self)
        ensures
            final(self)@ == (StreamView { reader_closed: true, ..old(self)@ }),
    {
        self.reader_closed = true;
    }

    /// The window to grant, once as much has been read as the threshold says.
    fn maybe_send_window_update(&mut self) -> (r: Option<u32>)
        ensures
            r == if old(self)@.consumed >= old(self)@.threshold {
                Some(old(self)@.consumed)
            } else {
                None
            },
            final(self)@ == (StreamView {
                consumed: if r is Some {
                    0
                } else {
                    old(self)@.consumed
                },
                ..old(self)@
            }),
    {
        if self.consumed_since_update >= self.window_update_threshold {
            let n: u32 = self.consumed_since_update;
            self.consumed_since_update = 0;
            Some(n)
        } else {
            None
        }
    }

    /// The window to grant for whatever has been read since the last grant.
    fn flush_window_update(&mut self) -> (r: Option<u32>)
        ensures
            r == if old(self)@.consumed > 0 {
                Some(old(self)@.consumed)
            } else {
                None
            },
            final(self)@ == (StreamView { consumed: 0, ..old(self)@ }),
    {
        if self.consumed_since_update > 0 {
            let n: u32 = self.consumed_since_update;
            self.consumed_since_update = 0;
            Some(n)
        } else {
            None
        }
    }

    /// Hands out the first bytes of `from` and keeps the rest.
    fn hand_out(&mut self, from: Bytes, capacity: usize) -> (step: ReadStep)
        requires
            old(self)@.wf(),
            buf::bytes_of(from).len() <= MAX_EVENT_BODY_LEN,
        ensures
            final(self)@.wf(),
            reads_from(old(self)@, final(self)@, step, buf::bytes_of(from), capacity),
    {
        let len: usize = bytes_len(&from);
        let copy_n: usize = if len <= capacity {
            len
        } else {
            capacity
        };
        let data = bytes_range(&from, 0, copy_n);
        self.recv_buf = if copy_n == len {
            bytes_new()
        } else {
            bytes_range(&from, copy_n, len)
        };
        assert(buf::bytes_of(data) =~= buf::bytes_of(from).take(copy_n as int));
        assert(buf::bytes_of(self.recv_buf) =~= buf::bytes_of(from).skip(copy_n as int));
        self.consumed_since_update = self.consumed_since_update + copy_n as u32;
        let window_update = self.maybe_send_window_update();
        ReadStep { outcome: ReadOutcome::Ready(data), window_update }
    }

    /// Whether a read has to look at the inbound queue.
    pub fn wants_inbound(&self) -> (r: bool)
        ensures
            r == (self@.buffered.len() == 0 && !self@.eof),
    {
        bytes_len(&self.recv_buf) == 0 && !self.read_eof
    }

    /// Reads at most `capacity` bytes. What the inbound queue gave counts only where nothing is
    /// buffered and the peer has not ended its direction.
    pub fn poll_read(&mut self, inbound: Inbound, capacity: usize) -> (step: ReadStep)
        requires
            old(self)@.wf(),
            inbound matches Inbound::Data(b) ==> buf::bytes_of(b).len() <= MAX_EVENT_BODY_LEN,
        ensures
            final(self)@.wf(),
            reads(old(self)@, final(self)@, inbound, capacity, step),
    {
        if bytes_len(&self.recv_buf) > 0 {
            let from = self.recv_buf.clone();
            return self.hand_out(from, capacity);
        }
        if self.read_eof {
            self.close_reader();
            return ReadStep { outcome: ReadOutcome::Ready(bytes_new()), window_update: None };
        }
        match inbound {
            Inbound::Data(b) => {
                if bytes_len(&b) == 0 {
                    self.read_eof = true;
                    self.close_reader();
                    return ReadStep { outcome: ReadOutcome::Ready(b), window_update: None };
                }
                self.hand_out(b, capacity)
            },
            Inbound::Reset => {
                self.close_by_remote = true;
                self.close_reader();
                ReadStep { outcome: ReadOutcome::Reset, window_update: None }
            },
            Inbound::Gone => {
                self.close_reader();
                ReadStep { outcome: ReadOutcome::Reset, window_update: None }
            },
            Inbound::Pending => {
                if self.close_by_remote {
                    self.close_reader();
                    return ReadStep { outcome: ReadOutcome::Reset, window_update: None };
                }
                ReadStep { outcome: ReadOutcome::Pending, window_update: None }
            },
        }
    }

    /// Writes as much of `buf` as the window allows. `reserve` tells whether the control queue
    /// has room, and counts only where there is something to send and a window to send it in.
    pub fn poll_write(&self, flow: &mut StreamFlow, waker: &Waker, buf: &[u8], reserve: Reserve) -> (step:
        WriteStep)
        ensures
            writes(self@, *old(flow), *final(flow), *waker, buf@, reserve, step),
    {
        if self.close_by_remote || flow.is_closed() {
            return WriteStep::Closed;
        }
        if buf.len() == 0 {
            return WriteStep::Nothing;
        }
        if flow.available() == 0 {
            flow.register_waker(waker);
            return WriteStep::Pending;
        }
        match reserve {
            Reserve::Pending => {
                flow.register_waker(waker);
                return WriteStep::Pending;
            },
            Reserve::Failed => {
                return WriteStep::Failed;
            },
            Reserve::Ready => {},
        }
        let allowed: usize = flow.try_consume(buf.len());
        let data = vstd::slice::slice_to_vec(vstd::slice::slice_subrange(buf, 0, allowed));
        assert(data@ =~= buf@.take(allowed as int));
        WriteStep::Send(bytes_from_vec(data))
    }

    /// Writes all of `data` or nothing: where the window does not cover it, the writer waits.
    pub fn poll_write_bytes(
        &self,
        flow: &mut StreamFlow,
        waker: &Waker,
        data: Bytes,
        reserve: Reserve,
    ) -> (step: WriteStep)
        requires
            buf::bytes_of(data).len() <= u32::MAX,
        ensures
            writes_whole(
                self@,
                *old(flow),
                *final(flow),
                *waker,
                buf::bytes_of(data),
                reserve,
                step,
            ),
    {
        if self.close_by_remote || flow.is_closed() {
            return WriteStep::Closed;
        }
        let len: usize = bytes_len(&data);
        if len == 0 {
            return WriteStep::Nothing;
        }
        if flow.available() < len as u32 {
            flow.register_waker(waker);
            return WriteStep::Pending;
        }
        match reserve {
            Reserve::Pending => {
                flow.register_waker(waker);
                return WriteStep::Pending;
            },
            Reserve::Failed => {
                return WriteStep::Failed;
            },
            Reserve::Ready => {},
        }
        let _consumed: usize = flow.try_consume(len);
        WriteStep::Send(data)
    }

    /// Ends this side's direction. The first call grants what is owed and announces the
    /// shutdown; later calls do nothing.
    pub fn poll_shutdown(&mut self) -> (step: EndStep)
        ensures
            shuts_down(old(self)@, final(self)@, step),
    {
        if self.initial_close {
            return EndStep { window_update: None, control: None };
        }
        self.initial_close = true;
        let window_update = self.flush_window_update();
        EndStep { window_update, control: Some(Control::StreamShutdown(self.id, false)) }
    }

    /// What giving the stream up asks for: the grant that is owed, and the close, unless the
    /// peer has closed the stream already.
    pub fn close(&mut self) -> (step: EndStep)
        ensures
            gives_up(old(self)@, final(self)@, step),
    {
        let window_update = self.flush_window_update();
        let control = if self.close_by_remote {
            None
        } else {
            Some(Control::StreamClose(self.id, false))
        };
        EndStep { window_update, control }
    }
}

/// The window that is owed to the peer for what has been read since the last grant.
pub open spec fn owed(s: StreamView) -> Option<u32> {
    if s.consumed > 0 {
        Some(s.consumed)
    } else {
        None
    }
}

/// The bytes of a grant.
pub open spec fn grant_len(grant: Option<u32>) -> int {
    match grant {
        Some(n) => n as int,
        None => 0,
    }
}

/// No byte of window is lost or made up by a read: what was owed and what was read is what is
/// granted and what is owed afterwards.
pub proof fn read_keeps_the_window(
    pre: StreamView,
    post: StreamView,
    step: ReadStep,
    from: Seq<u8>,
    capacity: usize,
)
    requires
        pre.wf(),
        from.len() <= MAX_EVENT_BODY_LEN,
        reads_from(pre, post, step, from, capacity),
    ensures
        pre.consumed + buf::bytes_of(step.outcome->Ready_0).len() == grant_len(step.window_update)
            + post.consumed,
{
}

/// No byte of data is lost, repeated or reordered by a read: what is handed out and what is kept
/// are, in this order, what there was.
pub proof fn read_keeps_the_data(
    pre: StreamView,
    post: StreamView,
    step: ReadStep,
    from: Seq<u8>,
    capacity: usize,
)
    requires
        reads_from(pre, post, step, from, capacity),
    ensures
        buf::bytes_of(step.outcome->Ready_0) + post.buffered == from,
        buf::bytes_of(step.outcome->Ready_0).len() <= capacity,
{
    let n = fit(from.len(), capacity);
    assert(from.take(n) + from.skip(n) =~= from);
}

/// A call of `MuxStream::poll_read`: what the inbound queue gave, how much was asked for, and what
/// came of it.
pub struct ReadCall {
    pub inbound: Inbound,
    pub capacity: usize,
    pub step: ReadStep,
}

/// The calls are reads of one stream, one after the other, with the states between them.
pub open spec fn is_reading(states: Seq<StreamView>, calls: Seq<ReadCall>) -> bool {
    &&& states.len() == calls.len() + 1
    &&& forall|i: int|
        0 <= i < calls.len() ==> {
            &&& (#[trigger] calls[i]).inbound matches Inbound::Data(b) ==> buf::bytes_of(b).len()
                <= MAX_EVENT_BODY_LEN
            &&& reads(states[i], states[i + 1], calls[i].inbound, calls[i].capacity, calls[i].step)
        }
}

/// The data that a read takes from the inbound queue.
pub open spec fn taken_in(pre: StreamView, inbound: Inbound) -> Seq<u8> {
    if pre.buffered.len() == 0 && !pre.eof {
        match inbound {
            Inbound::Data(b) => buf::bytes_of(b),
            _ => Seq::empty(),
        }
    } else {
        Seq::empty()
    }
}

/// The data that the first `n` calls took from the inbound queue, in order.
pub open spec fn queued(states: Seq<StreamView>, calls: Seq<ReadCall>, n: nat) -> Seq<u8>
    decreases n,
{
    if n == 0 {
        Seq::empty()
    } else {
        queued(states, calls, (n - 1) as nat) + taken_in(states[n - 1], calls[n - 1].inbound)
    }
}

/// The bytes that a read gave.
pub open spec fn given(step: ReadStep) -> Seq<u8> {
    match step.outcome {
        ReadOutcome::Ready(b) => buf::bytes_of(b),
        _ => Seq::empty(),
    }
}

/// The bytes that the first `n` calls gave, in order.
pub open spec fn returned(calls: Seq<ReadCall>, n: nat) -> Seq<u8>
    decreases n,
{
    if n == 0 {
        Seq::empty()
    } else {
        returned(calls, (n - 1) as nat) + given(calls[n - 1].step)
    }
}

/// The window that the first `n` calls granted.
pub open spec fn granted(calls: Seq<ReadCall>, n: nat) -> int
    decreases n,
{
    if n == 0 {
        0
    } else {
        granted(calls, (n - 1) as nat) + grant_len(calls[n - 1].step.window_update)
    }
}

/// Over any sequence of reads, with any capacities: the bytes come in the order of the queue, and
/// what has not come yet is buffered; each grant is at least half a window; and the grants fall
/// short of what was read by less than half a window.
pub proof fn reads_keep_order_and_window(
    states: Seq<StreamView>,
    calls: Seq<ReadCall>,
    conn_id: u32,
    id: u32,
    flow: u64,
    initial_stream_window: u32,
    n: nat,
)
    requires
        is_reading(states, calls),
        states[0] == StreamView::fresh(conn_id, id, flow, initial_stream_window),
        initial_stream_window >= 2,
        n <= calls.len(),
    ensures
        returned(calls, n) + states[n as int].buffered == queued(states, calls, n),
        forall|i: int|
            0 <= i < n ==> ((#[trigger] calls[i]).step.window_update matches Some(k) ==> k
                >= initial_stream_window / 2),
        granted(calls, n) <= returned(calls, n).len() < granted(calls, n) + initial_stream_window
            / 2,
        states[n as int].id == id,
        states[n as int].wf(),
        states[n as int].threshold == initial_stream_window / 2,
        granted(calls, n) + states[n as int].consumed == returned(calls, n).len(),
    decreases n,
{
    if n == 0 {
        assert(returned(calls, n) + states[0].buffered =~= queued(states, calls, n));
    } else {
        let m = (n - 1) as nat;
        reads_keep_order_and_window(states, calls, conn_id, id, flow, initial_stream_window, m);
        let pre = states[m as int];
        let post = states[n as int];
        let call = calls[m as int];
        assert(reads(pre, post, call.inbound, call.capacity, call.step));
        let from = if pre.buffered.len() > 0 {
            pre.buffered
        } else {
            taken_in(pre, call.inbound)
        };
        if from.len() > 0 {
            let k = fit(from.len(), call.capacity);
            assert(from.take(k) + from.skip(k) =~= from);
            assert(post.consumed < post.threshold || post.consumed == 0);
        }
        assert(given(call.step) + post.buffered =~= from);
        assert(returned(calls, n) + post.buffered =~= returned(calls, m) + from);
        if pre.buffered.len() == 0 {
            assert(returned(calls, m) + pre.buffered =~= returned(calls, m));
        }
        assert(returned(calls, n) + post.buffered =~= queued(states, calls, n));
    }
}

/// From the empty piece on that ends the peer's direction, every read gives no bytes at once.
pub proof fn nothing_follows_the_end(states: Seq<StreamView>, calls: Seq<ReadCall>, i: int, j: int)
    requires
        is_reading(states, calls),
        0 <= i <= j < calls.len(),
        states[i].buffered.len() == 0,
        !states[i].eof,
        calls[i].inbound matches Inbound::Data(b) && buf::bytes_of(b).len() == 0,
    ensures
        calls[j].step.outcome is Ready,
        given(calls[j].step).len() == 0,
        calls[j].step.window_update is None,
        states[j + 1].eof,
        states[j + 1].buffered.len() == 0,
    decreases j,
{
    let call = calls[j];
    assert(reads(states[j], states[j + 1], call.inbound, call.capacity, call.step));
    if j > i {
        nothing_follows_the_end(states, calls, i, j - 1);
    }
}

/// From a reset on, or from the loss of the queue, every read fails as reset: no data follows a
/// reset in its queue, and a queue that is gone stays gone.
pub proof fn reset_stays(states: Seq<StreamView>, calls: Seq<ReadCall>, i: int, j: int)
    requires
        is_reading(states, calls),
        0 <= i <= j < calls.len(),
        states[i].buffered.len() == 0,
        !states[i].eof,
        calls[i].inbound is Reset || calls[i].inbound is Gone,
        forall|k: int|
            i < k < calls.len() ==> {
                &&& !((#[trigger] calls[k]).inbound is Data)
                &&& calls[i].inbound is Gone ==> calls[k].inbound is Gone
            },
    ensures
        calls[j].step.outcome is Reset,
        calls[j].step.window_update is None,
        states[j + 1].reset || calls[i].inbound is Gone,
        !states[j + 1].eof,
        states[j + 1].buffered.len() == 0,
    decreases j,
{
    let call = calls[j];
    assert(reads(states[j], states[j + 1], call.inbound, call.capacity, call.step));
    if j > i {
        reset_stays(states, calls, i, j - 1);
    }
}

/// A call on a flow, with its argument and its result.
pub enum FlowCall {
    Credit(u32),
    Consume(usize, usize),
    Close,
}

/// The calls are made on one flow, one after the other, with the states between them.
pub open spec fn is_flowing(states: Seq<StreamFlow>, calls: Seq<FlowCall>) -> bool {
    &&& states.len() == calls.len() + 1
    &&& forall|i: int|
        0 <= i < calls.len() ==> match #[trigger] calls[i] {
            FlowCall::Credit(increment) => states[i].credits(states[i + 1], increment),
            FlowCall::Consume(desired, n) => states[i].consumes(states[i + 1], desired, n),
            FlowCall::Close => states[i].closes(states[i + 1]),
        }
}

/// What the first `n` calls added to the window, less what they took from it.
pub open spec fn balance(calls: Seq<FlowCall>, n: nat) -> int
    decreases n,
{
    if n == 0 {
        0
    } else {
        balance(calls, (n - 1) as nat) + match calls[n - 1] {
            FlowCall::Credit(increment) => increment as int,
            FlowCall::Consume(_, taken) => -taken,
            FlowCall::Close => 0,
        }
    }
}

/// No window is lost and none is made up: as long as the total stays within the counter's range,
/// what is available is what there was at first, and what was credited, less what was taken.
pub proof fn window_is_kept(states: Seq<StreamFlow>, calls: Seq<FlowCall>, n: nat)
    requires
        is_flowing(states, calls),
        !states[0].shut(),
        forall|i: int| 0 <= i < calls.len() ==> !(#[trigger] calls[i] is Close),
        forall|k: nat| k <= calls.len() ==> states[0].window() + #[trigger] balance(calls, k)
            <= u32::MAX,
        n <= calls.len(),
    ensures
        !states[n as int].shut(),
        states[n as int].avail() == states[0].window() + balance(calls, n),
    decreases n,
{
    if n > 0 {
        let m = (n - 1) as nat;
        window_is_kept(states, calls, m);
        let call = calls[m as int];
        assert(balance(calls, n) == balance(calls, m) + match call {
            FlowCall::Credit(increment) => increment as int,
            FlowCall::Consume(_, taken) => -taken,
            FlowCall::Close => 0,
        });
        assert(states[0].window() + balance(calls, n) <= u32::MAX);
    }
}

/// A closed flow stays closed, whatever is called on it: nothing is available, and nothing is
/// taken.
pub proof fn closed_flow_stays_closed(
    states: Seq<StreamFlow>,
    calls: Seq<FlowCall>,
    i: int,
    j: int,
)
    requires
        is_flowing(states, calls),
        0 <= i < j <= calls.len(),
        calls[i] is Close,
    ensures
        states[j].shut(),
        states[j].avail() == 0,
        j < calls.len() ==> (calls[j] matches FlowCall::Consume(_, n) ==> n == 0),
    decreases j,
{
    if j > i + 1 {
        closed_flow_stays_closed(states, calls, i, j - 1);
        assert(calls[j - 1] is Close ==> states[j].shut());
    }
}

/// What a write takes is the start of what was given, as much as the window allows and at least
/// one byte, and the window is less by exactly that.
pub proof fn written_bytes_are_the_first_ones(
    s: StreamView,
    pre: StreamFlow,
    post: StreamFlow,
    waker: Waker,
    data: Seq<u8>,
    reserve: Reserve,
    step: WriteStep,
)
    requires
        writes(s, pre, post, waker, data, reserve, step),
    ensures
        step is Send <==> !s.reset && !pre.shut() && data.len() > 0 && pre.window() > 0
            && reserve is Ready,
        step is Send ==> {
            let sent = buf::bytes_of(step->Send_0);
            &&& 0 < sent.len() <= data.len()
            &&& sent == data.take(sent.len() as int)
            &&& post.window() + sent.len() == pre.window()
            &&& sent.len() == data.len() || post.window() == 0
        },
        !(step is Send) ==> post.window() == pre.window(),
        step is Closed <==> s.reset || pre.shut(),
        post.shut() == pre.shut(),
{
}

/// A writer waits exactly when the stream is open, there is something to write, and the window or
/// the queue has no room; it is then called for once there is.
pub proof fn writer_waits_for_room(
    s: StreamView,
    pre: StreamFlow,
    post: StreamFlow,
    waker: Waker,
    data: Seq<u8>,
    reserve: Reserve,
    step: WriteStep,
)
    requires
        writes(s, pre, post, waker, data, reserve, step),
        !s.reset,
        !pre.shut(),
    ensures
        step is Pending <==> data.len() > 0 && (pre.window() == 0 || reserve is Pending),
        step is Pending ==> post.parked() == Some(registered(pre.parked(), waker)),
        step is Failed <==> data.len() > 0 && pre.window() > 0 && reserve is Failed,
        step is Nothing <==> data.len() == 0,
{
}

/// A write in one piece takes all or nothing: all where the window covers it, and otherwise the
/// writer waits.
pub proof fn one_piece_is_written_or_waits(
    s: StreamView,
    pre: StreamFlow,
    post: StreamFlow,
    waker: Waker,
    data: Seq<u8>,
    reserve: Reserve,
    step: WriteStep,
)
    requires
        writes_whole(s, pre, post, waker, data, reserve, step),
        !s.reset,
        !pre.shut(),
        data.len() > 0,
    ensures
        step is Send <==> data.len() <= pre.window() && reserve is Ready,
        step is Send ==> buf::bytes_of(step->Send_0) == data && post.window() + data.len()
            == pre.window(),
        step is Pending <==> data.len() > pre.window() || reserve is Pending,
        !(step is Send) ==> post.window() == pre.window(),
        step is Pending ==> post.parked() is Some,
{
}

/// A stream that ends its direction says so once; giving it up tells the peer unless the peer has
/// reset it. Both first grant what was read and not granted, so that nothing is owed after them.
pub proof fn end_is_told_once(
    pre: StreamView,
    mid: StreamView,
    first: EndStep,
    post: StreamView,
    second: EndStep,
    left: StreamView,
    last: EndStep,
)
    requires
        !pre.ending,
        shuts_down(pre, mid, first),
        shuts_down(mid, post, second),
        gives_up(post, left, last),
    ensures
        first.control == Some(Control::StreamShutdown(pre.id, false)),
        second.control is None,
        second.window_update is None,
        pre.reset ==> last.control is None,
        !pre.reset ==> last.control == Some(Control::StreamClose(pre.id, false)),
        first.window_update is Some <==> pre.consumed > 0,
        first.window_update is Some ==> first.window_update->Some_0 == pre.consumed,
        last.window_update is None,
        left.consumed == 0,
        left.buffered == pre.buffered,
{
}

} // verus!
