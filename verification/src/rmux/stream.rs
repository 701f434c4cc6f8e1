//! A stream of an encrypted session. The window is loose: a write goes out whole while the window
//! is not negative, and may overdraw it once.

use bytes::BytesMut;
use vstd::prelude::*;
use crate::mux::event;
use crate::buf;
use crate::buf::{buf_advance, buf_from_bytes, buf_len, buf_new, buf_slice, bytes_from_vec};
use crate::rmux::event::{new_data_event, new_fin_event, Event, FLAG_DATA, FLAG_FIN};
use crate::rmux::message::ConnectRequest;
use crate::stat;
use crate::stat::signed_decimal;
use crate::text;
use crate::text::decimal;

verus! {

/// As many bytes must have been read before the peer is told.
pub const MIN_REPORT_WINDOW: i32 = 32768;

/// What a stream keeps track of.
pub struct MuxStreamState {
    pub channel: String,
    pub session_id: u32,
    pub stream_id: u32,
    /// What the peer still takes; negative where it was overdrawn.
    pub send_buf_window: i32,
    /// What has been read and not yet reported.
    pub recv_buf_size: i32,
    pub closed: bool,
    pub total_recv_bytes: u32,
    pub total_send_bytes: u32,
}

pub struct MuxStream {
    pub target: ConnectRequest,
    pub state: MuxStreamState,
    recv_buf: BytesMut,
    parked: bool,
    relay_buf_size: usize,
}

/// The state of a stream.
#[verifier::ext_equal]
pub struct StreamView {
    pub target: (Seq<char>, Seq<char>),
    pub channel: Seq<char>,
    pub session_id: u32,
    pub id: u32,
    pub send_window: i32,
    pub unreported: i32,
    pub closed: bool,
    pub received: u32,
    pub sent: u32,
    /// What was delivered and not yet read.
    pub buffered: Seq<u8>,
    /// A writer waits for the window.
    pub parked: bool,
    pub relay_buf_size: usize,
}

impl View for MuxStream {
    type V = StreamView;

    closed spec fn view(&self) -> StreamView {
        StreamView {
            target: self.target@,
            channel: self.state.channel@,
            session_id: self.state.session_id,
            id: self.state.stream_id,
            send_window: self.state.send_buf_window,
            unreported: self.state.recv_buf_size,
            closed: self.state.closed,
            received: self.state.total_recv_bytes,
            sent: self.state.total_send_bytes,
            buffered: buf::buf_of(self.recv_buf),
            parked: self.parked,
            relay_buf_size: self.relay_buf_size,
        }
    }
}

impl StreamView {
    /// The line about the stream.
    pub open spec fn stat_text(self, age: Seq<char>) -> Seq<char> {
        text::digits(self.id as nat) + ":target:"@ + self.target.1 + ", age:"@ + age
            + ", send_bytes:"@ + text::digits(self.sent as nat) + ", recv_bytes:"@ + text::digits(
            self.received as nat,
        ) + ", send_window:"@ + stat::signed(self.send_window) + ", closed:"@ + if self.closed {
            "true"@
        } else {
            "false"@
        } + "\n"@
    }
}

/// What the queue of delivered data gave.
pub enum Inbound {
    /// Data; an empty message ends the stream.
    Data(Vec<u8>),
    /// No one can deliver any more.
    Gone,
    Pending,
}

/// What a read came to.
pub enum ReadOutcome {
    Data(Vec<u8>),
    /// The stream has ended.
    End,
    /// "closed"
    Closed,
    Pending,
}

/// What a read comes to, and the amount to report to the peer.
pub struct ReadStep {
    pub outcome: ReadOutcome,
    pub report: Option<u32>,
}

/// Whether an event can be queued.
#[derive(Debug, PartialEq, Eq, Structural, Clone, Copy)]
pub enum SendPoll {
    Ready,
    Pending,
    Failed,
}

/// What a write came to.
pub enum WriteStep {
    /// Queue the event; everything was written.
    Sent(Event),
    Pending,
    /// The write failed; the reader is told of the end, and a waiting writer is woken.
    Failed { wake: bool },
}

/// What closing a stream asks for: the reader is told of the end, a waiting writer is woken, and
/// the event is queued.
pub struct CloseStep {
    pub wake: bool,
    pub fin: Event,
}

/// How many of `len` bytes fit into `capacity`.
pub open spec fn fit(len: nat, capacity: usize) -> int {
    if len <= capacity {
        len as int
    } else {
        capacity as int
    }
}

impl StreamView {
    /// The stream after `n` bytes were read.
    pub open spec fn counted(self, n: int) -> StreamView {
        StreamView {
            unreported: i32::wrapping_add(self.unreported, n as i32),
            received: u32::wrapping_add(self.received, n as u32),
            ..self
        }
    }

    /// What is due to be reported.
    pub open spec fn due(self) -> Option<u32> {
        if self.unreported >= MIN_REPORT_WINDOW {
            Some(self.unreported as u32)
        } else {
            None
        }
    }

    /// The stream after a write of `n` bytes.
    pub open spec fn spent(self, n: nat) -> StreamView {
        StreamView {
            send_window: i32::wrapping_sub(self.send_window, n as i32),
            sent: u32::wrapping_add(self.sent, n as u32),
            ..self
        }
    }

    /// The stream after the peer takes `inc` bytes more.
    pub open spec fn credited(self, inc: u32) -> StreamView {
        let window = i32::wrapping_add(self.send_window, inc as i32);
        StreamView { send_window: window, parked: self.parked && window <= 0, ..self }
    }
}

/// Part of the data is handed out, and the rest is kept.
pub open spec fn reads_from(
    pre: StreamView,
    post: StreamView,
    step: ReadStep,
    data: Seq<u8>,
    capacity: usize,
) -> bool {
    let n = fit(data.len(), capacity);
    &&& step.outcome is Data
    &&& step.outcome->Data_0@ == data.take(n)
    &&& post == (StreamView { buffered: data.skip(n), ..pre.counted(n) })
    &&& step.report == post.due()
}

/// A read of at most `capacity` bytes, where the queue of delivered data gave `inbound`.
pub open spec fn polls_read(
    pre: StreamView,
    post: StreamView,
    inbound: Inbound,
    capacity: usize,
    step: ReadStep,
) -> bool {
    if pre.closed {
        step.outcome is Closed && step.report is None && post == pre
    } else if pre.buffered.len() > 0 {
        reads_from(pre, post, step, pre.buffered, capacity)
    } else {
        match inbound {
            Inbound::Data(b) => if b@.len() > 0 {
                reads_from(pre, post, step, b@, capacity)
            } else {
                step.outcome is End && step.report is None && post == (StreamView {
                    closed: true,
                    ..pre
                })
            },
            Inbound::Gone => {
                step.outcome is End && step.report is None && post == (StreamView {
                    closed: true,
                    ..pre
                })
            },
            Inbound::Pending => {
                step.outcome is Pending && step.report is None && post == pre
            },
        }
    }
}

/// A write of all of `buf`, where the queue of events is `ready` or not.
pub open spec fn polls_write(
    pre: StreamView,
    post: StreamView,
    buf: Seq<u8>,
    ready: SendPoll,
    step: WriteStep,
) -> bool {
    if pre.closed {
        step == (WriteStep::Failed { wake: pre.parked }) && post == (StreamView {
            parked: false,
            ..pre
        })
    } else if pre.send_window < 0 {
        step is Pending && post == (StreamView { parked: true, ..pre })
    } else {
        match ready {
            SendPoll::Pending => step is Pending && post == pre,
            SendPoll::Failed => step == (WriteStep::Failed { wake: pre.parked }) && post == (
            StreamView { parked: false, ..pre }),
            SendPoll::Ready => {
                &&& step is Sent
                &&& step->Sent_0@ == event::event_of(FLAG_DATA, pre.id, buf)
                &&& !step->Sent_0.remote
                &&& post == pre.spent(buf.len())
            },
        }
    }
}

/// The closing of a stream.
pub open spec fn closes(pre: StreamView, post: StreamView, step: CloseStep) -> bool {
    &&& post == (StreamView { closed: true, parked: false, ..pre })
    &&& step.wake == pre.parked
    &&& step.fin@ == event::event_of(FLAG_FIN, pre.id, Seq::empty())
    &&& !step.fin.remote
}

impl MuxStream {
    /// A stream with a window of four relay buffers.
    pub fn new(
        name: &str,
        session_id: u32,
        stream_id: u32,
        target: ConnectRequest,
        relay_buf_size: usize,
    ) -> (r: MuxStream)
        requires
            4 * relay_buf_size <= i32::MAX,
        ensures
            r@ == (StreamView {
                target: target@,
                channel: name@,
                session_id,
                id: stream_id,
                send_window: (4 * relay_buf_size) as i32,
                unreported: 0,
                closed: false,
                received: 0,
                sent: 0,
                buffered: Seq::empty(),
                parked: false,
                relay_buf_size,
            }),
    {
        let state = MuxStreamState {
            channel: name.to_owned(),
            session_id,
            stream_id,
            send_buf_window: relay_buf_size as i32 * 4,
            recv_buf_size: 0,
            closed: false,
            total_recv_bytes: 0,
            total_send_bytes: 0,
        };
        MuxStream { target, state, recv_buf: buf_new(), parked: false, relay_buf_size }
    }

    /// What the stream has done so far, as a line of text; `age` says how long it has been open.
    pub fn stat_info(&self, age: &str) -> (r: String)
        ensures
            r@ == self@.stat_text(age@),
    {
        let mut s: String = decimal(self.state.stream_id as u64);
        s.push_str(":target:");
        s.push_str(self.target.addr.as_str());
        s.push_str(", age:");
        s.push_str(age);
        s.push_str(", send_bytes:");
        s.push_str(decimal(self.state.total_send_bytes as u64).as_str());
        s.push_str(", recv_bytes:");
        s.push_str(decimal(self.state.total_recv_bytes as u64).as_str());
        s.push_str(", send_window:");
        s.push_str(signed_decimal(self.state.send_buf_window).as_str());
        s.push_str(", closed:");
        s.push_str(
            if self.state.closed {
                "true"
            } else {
                "false"
            },
        );
        s.push_str("\n");
        s
    }

    pub fn id(&self) -> (r: u32)
        ensures
            r == self@.id,
    {
        self.state.stream_id
    }

    pub fn relay_buf_size(&self) -> (r: usize)
        ensures
            r == self@.relay_buf_size,
    {
        self.relay_buf_size
    }

    pub fn is_closed(&self) -> (r: bool)
        ensures
            r == self@.closed,
    {
        self.state.closed
    }

    /// Counts what was read, and gives the amount to report.
    fn inc_recv_buf_window(&mut self, inc: usize) -> (r: Option<u32>)
        ensures
            final(self)@ == old(self)@.counted(inc as int),
            r == final(self)@.due(),
    {
        self.state.recv_buf_size = self.state.recv_buf_size.wrapping_add(inc as i32);
        self.state.total_recv_bytes = self.state.total_recv_bytes.wrapping_add(inc as u32);
        if self.state.recv_buf_size >= MIN_REPORT_WINDOW {
            Some(self.state.recv_buf_size as u32)
        } else {
            None
        }
    }

    /// The amount was reported to the peer.
    pub fn window_reported(&mut self, amount: u32)
        ensures
            final(self)@ == (StreamView {
                unreported: i32::wrapping_sub(old(self)@.unreported, amount as i32),
                ..old(self)@
            }),
    {
        self.state.recv_buf_size = self.state.recv_buf_size.wrapping_sub(amount as i32);
    }

    /// Whether a read has to look at the queue of delivered data.
    pub fn wants_inbound(&self) -> (r: bool)
        ensures
            r == (!self@.closed && self@.buffered.len() == 0),
    {
        !self.state.closed && buf_len(&self.recv_buf) == 0
    }

    /// Reads at most `capacity` bytes. What the queue gave counts only where nothing is buffered
    /// and the stream is open.
    pub fn poll_read(&mut self, inbound: Inbound, capacity: usize) -> (step: ReadStep)
        ensures
            polls_read(old(self)@, final(self)@, inbound, capacity, step),
    {
        let ghost pre = self@;
        if self.state.closed {
            return ReadStep { outcome: ReadOutcome::Closed, report: None };
        }
        let have: usize = buf_len(&self.recv_buf);
        if have > 0 {
            let n: usize = if have <= capacity {
                have
            } else {
                capacity
            };
            let data = vstd::slice::slice_to_vec(
                vstd::slice::slice_subrange(buf_slice(&self.recv_buf), 0, n),
            );
            buf_advance(&mut self.recv_buf, n);
            assert(data@ =~= pre.buffered.take(n as int));
            let report = self.inc_recv_buf_window(n);
            return ReadStep { outcome: ReadOutcome::Data(data), report };
        }
        match inbound {
            Inbound::Data(b) => {
                let len: usize = b.len();
                if len == 0 {
                    self.state.closed = true;
                    return ReadStep { outcome: ReadOutcome::End, report: None };
                }
                let n: usize = if len <= capacity {
                    len
                } else {
                    capacity
                };
                let data = vstd::slice::slice_to_vec(
                    vstd::slice::slice_subrange(b.as_slice(), 0, n),
                );
                let rest = vstd::slice::slice_subrange(b.as_slice(), n, len);
                self.recv_buf = buf_from_bytes(bytes_from_vec(vstd::slice::slice_to_vec(rest)));
                assert(data@ =~= b@.take(n as int));
                assert(buf::buf_of(self.recv_buf) =~= b@.skip(n as int));
                let report = self.inc_recv_buf_window(n);
                ReadStep { outcome: ReadOutcome::Data(data), report }
            },
            Inbound::Gone => {
                self.state.closed = true;
                ReadStep { outcome: ReadOutcome::End, report: None }
            },
            Inbound::Pending => ReadStep { outcome: ReadOutcome::Pending, report: None },
        }
    }

    fn take_parked(&mut self) -> (r: bool)
        ensures
            r == old(self)@.parked,
            final(self)@ == (StreamView { parked: false, ..old(self)@ }),
    {
        let r: bool = self.parked;
        self.parked = false;
        r
    }

    /// Writes all of `buf`, where the window is not overdrawn and the event can be queued.
    pub fn poll_write(&mut self, buf: &[u8], ready: SendPoll) -> (step: WriteStep)
        ensures
            polls_write(old(self)@, final(self)@, buf@, ready, step),
    {
        if self.state.closed {
            return WriteStep::Failed { wake: self.take_parked() };
        }
        if self.state.send_buf_window < 0 {
            self.parked = true;
            return WriteStep::Pending;
        }
        match ready {
            SendPoll::Pending => WriteStep::Pending,
            SendPoll::Failed => WriteStep::Failed { wake: self.take_parked() },
            SendPoll::Ready => {
                let ev = new_data_event(self.state.stream_id, buf, false);
                let n: usize = buf.len();
                self.state.send_buf_window = self.state.send_buf_window.wrapping_sub(n as i32);
                self.state.total_send_bytes = self.state.total_send_bytes.wrapping_add(n as u32);
                WriteStep::Sent(ev)
            },
        }
    }

    /// Ends the writer's side; gives whether a waiting writer is woken. The reader is told of the
    /// end.
    pub fn poll_shutdown(&mut self) -> (wake: bool)
        ensures
            wake == old(self)@.parked,
            final(self)@ == (StreamView { closed: true, parked: false, ..old(self)@ }),
    {
        self.state.closed = true;
        self.take_parked()
    }

    /// The peer takes `inc` bytes more; gives whether a waiting writer is woken.
    pub fn update_send_window(&mut self, inc: u32) -> (wake: bool)
        ensures
            final(self)@ == old(self)@.credited(inc),
            wake == (old(self)@.parked && !final(self)@.parked),
    {
        self.state.send_buf_window = self.state.send_buf_window.wrapping_add(inc as i32);
        if self.state.send_buf_window > 0 {
            self.take_parked()
        } else {
            false
        }
    }

    /// The data to deliver to the reader; a closed stream takes none.
    pub fn offer_data(&mut self, data: Vec<u8>) -> (r: Option<Vec<u8>>)
        requires
            !old(self)@.closed ==> data@.len() > 0,
        ensures
            final(self)@ == old(self)@,
            match r {
                Some(d) => !old(self)@.closed && d@ == data@,
                None => old(self)@.closed,
            },
    {
        if self.state.closed {
            return None;
        }
        Some(data)
    }

    /// Closes the stream.
    pub fn close(&mut self) -> (step: CloseStep)
        ensures
            closes(old(self)@, final(self)@, step),
    {
        self.state.closed = true;
        let wake: bool = self.take_parked();
        CloseStep { wake, fin: new_fin_event(self.state.stream_id, false) }
    }
}

/// What has been read is reported in full, and no less than the smallest amount at a time: once
/// the report is out, nothing is left to report.
pub proof fn reports_leave_nothing(s: StreamView, n: int)
    requires
        0 <= s.unreported < MIN_REPORT_WINDOW,
        0 <= n <= 0x3fff_ffff,
    ensures
        s.counted(n).unreported == s.unreported + n,
        match s.counted(n).due() {
            Some(amount) => amount >= MIN_REPORT_WINDOW && i32::wrapping_sub(
                s.counted(n).unreported,
                amount as i32,
            ) == 0,
            None => s.counted(n).unreported < MIN_REPORT_WINDOW,
        },
{
}

/// The window comes back: what was written, once reported by the peer, may be written again.
pub proof fn reported_bytes_may_be_written_again(s: StreamView, n: nat)
    requires
        0 <= s.send_window,
        n <= 0x3fff_ffff,
    ensures
        s.spent(n).send_window == s.send_window - n,
        s.spent(n).credited(n as u32).send_window == s.send_window,
{
}

/// What is read is the next of what was delivered, as much as there is room for, and nothing is
/// lost of the rest: what is buffered comes before what the queue gives.
pub proof fn delivered_bytes_are_read_in_order(
    pre: StreamView,
    post: StreamView,
    inbound: Inbound,
    capacity: usize,
    step: ReadStep,
)
    requires
        polls_read(pre, post, inbound, capacity, step),
        step.outcome is Data,
        capacity <= 0x3fff_ffff,
        0 <= pre.unreported < 0x4000_0000,
    ensures
        ({
            let given = step.outcome->Data_0@;
            let there = if pre.buffered.len() > 0 {
                pre.buffered
            } else {
                inbound->Data_0@
            };
            &&& !pre.closed && !post.closed
            &&& pre.buffered.len() == 0 ==> inbound is Data
            &&& given + post.buffered == there
            &&& given.len() <= capacity
            &&& given.len() == capacity || post.buffered.len() == 0
            &&& post.unreported == pre.unreported + given.len()
            &&& post.send_window == pre.send_window
            &&& step.report is Some <==> post.unreported >= 32768
            &&& step.report is Some ==> step.report->Some_0 == post.unreported
        }),
{
    let there = if pre.buffered.len() > 0 {
        pre.buffered
    } else {
        inbound->Data_0@
    };
    let n = fit(there.len(), capacity);
    assert(there.take(n) + there.skip(n) =~= there);
}

/// A read gives data whenever there is some, whatever else; without any, it ends exactly when an
/// empty message came or no one can deliver any more, and then the stream is closed.
pub proof fn read_ends_with_the_data(
    pre: StreamView,
    post: StreamView,
    inbound: Inbound,
    capacity: usize,
    step: ReadStep,
)
    requires
        polls_read(pre, post, inbound, capacity, step),
        !pre.closed,
    ensures
        step.outcome is Data <==> pre.buffered.len() > 0 || (inbound is Data
            && inbound->Data_0@.len() > 0),
        step.outcome is End <==> pre.buffered.len() == 0 && (inbound is Gone || (inbound is Data
            && inbound->Data_0@.len() == 0)),
        step.outcome is End <==> post.closed,
        step.outcome is Pending ==> post == pre,
        !(step.outcome is Closed),
{
}

/// What is written goes out whole, in one event of the stream, and counts against the window.
/// Nothing goes out on a closed stream or while the window is overdrawn.
pub proof fn written_bytes_go_out_whole(
    pre: StreamView,
    post: StreamView,
    buf: Seq<u8>,
    ready: SendPoll,
    step: WriteStep,
)
    requires
        polls_write(pre, post, buf, ready, step),
        buf.len() < 0x100_0000,
    ensures
        step is Sent <==> !pre.closed && pre.send_window >= 0 && ready is Ready,
        match step {
            WriteStep::Sent(ev) => {
                &&& ev@.header().flag() == 3
                &&& ev@.stream_id == pre.id
                &&& ev@.body == buf
                &&& ev@.header().body_len() == buf.len()
                &&& post.send_window == pre.send_window - buf.len()
            },
            WriteStep::Pending => !pre.closed && post.send_window == pre.send_window,
            WriteStep::Failed { wake } => (pre.closed || ready is Failed) && wake == pre.parked,
        },
        !pre.closed && pre.send_window < 0 ==> post.parked,
        post.closed == pre.closed,
        post.buffered == pre.buffered,
{
}

/// A stream that is closed tells the peer so, once, and reads and writes nothing more.
pub proof fn closed_stream_is_over(
    pre: StreamView,
    post: StreamView,
    step: CloseStep,
    buf: Seq<u8>,
    ready: SendPoll,
    after: StreamView,
    write: WriteStep,
    inbound: Inbound,
    capacity: usize,
    read: ReadStep,
)
    requires
        closes(pre, post, step),
        polls_write(post, after, buf, ready, write),
        polls_read(post, after, inbound, capacity, read),
    ensures
        step.fin@.header().flag() == 2,
        step.fin@.stream_id == pre.id,
        step.fin@.body.len() == 0,
        step.wake == pre.parked,
        write is Failed,
        read.outcome is Closed,
        after.closed,
{
}

/// A grant of the peer adds to the window, and wakes a waiting writer exactly when something may
/// be written again.
pub proof fn grant_wakes_the_writer(s: StreamView, inc: u32)
    requires
        s.send_window + inc <= i32::MAX,
    ensures
        s.credited(inc).send_window == s.send_window + inc,
        s.credited(inc).parked == (s.parked && s.send_window + inc <= 0),
        s.credited(inc).closed == s.closed,
        s.credited(inc).buffered == s.buffered,
{
    assert(inc > 0x7fff_ffff ==> inc as i32 == inc - 0x1_0000_0000) by (bit_vector);
}

} // verus!
