//! A stream over queues of events. A window is granted in the length of an event's
//! header; see [`crate::rmux::event`].

use vstd::prelude::*;
use crate::mux::event;
use crate::mux::event::EventView;
use crate::rmux::event::{
    new_data_event, new_fin_event, new_window_update_event, Event, FLAG_DATA, FLAG_FIN,
    FLAG_WIN_UPDATE,
};

verus! {

/// The window that a stream starts with.
pub const START_WINDOW: u32 = 131072;

/// As many bytes must have been read before the peer is granted more.
pub const REPORT_WINDOW: u32 = 32768;

/// What happens to an event that is put into the queue.
#[derive(Debug, PartialEq, Eq, Structural, Clone, Copy)]
pub enum QueueSend {
    Taken,
    Full,
    Gone,
}

/// What the queue of received data gave.
pub enum Received {
    Data(Vec<u8>),
    Gone,
    Pending,
    Failed,
}

/// What a read came to.
pub enum StreamRead {
    /// These bytes; none at the end of the stream.
    Data(Vec<u8>),
    Reset,
    WouldBlock,
    Failed,
}

/// What a write came to.
pub enum StreamWrite {
    /// The event goes into the queue.
    Sent(Event),
    Reset,
    WouldBlock,
    Failed,
}

/// A stream. Writing takes a permit; there is one while the window is not used up.
pub struct ChannelMuxStream {
    stream_id: u32,
    send_buf_window: u32,
    recv_buf_window: u32,
    permits: u8,
    holds_permit: bool,
    closed: bool,
    reader: bool,
    recv_buf: Vec<u8>,
}

#[verifier::ext_equal]
pub struct StreamView {
    pub id: u32,
    pub send_window: u32,
    /// What has been read and not granted.
    pub read: u32,
    pub permits: u8,
    /// The writer holds a permit.
    pub holds: bool,
    pub closed: bool,
    /// Someone reads the stream.
    pub reader: bool,
    pub buffered: Seq<u8>,
}

impl View for ChannelMuxStream {
    type V = StreamView;

    closed spec fn view(&self) -> StreamView {
        StreamView {
            id: self.stream_id,
            send_window: self.send_buf_window,
            read: self.recv_buf_window,
            permits: self.permits,
            holds: self.holds_permit,
            closed: self.closed,
            reader: self.reader,
            buffered: self.recv_buf@,
        }
    }
}

/// How many of `len` bytes fit.
pub open spec fn fit(len: nat, room: int) -> int {
    if len <= room {
        len as int
    } else {
        room
    }
}

impl StreamView {
    /// There are never more than two permits, with the one that the writer holds.
    pub open spec fn wf(self) -> bool {
        self.permits + if self.holds {
            1int
        } else {
            0
        } <= 2
    }

    pub open spec fn fresh(id: u32) -> StreamView {
        StreamView {
            id,
            send_window: START_WINDOW,
            read: 0,
            permits: 1,
            holds: false,
            closed: false,
            reader: false,
            buffered: Seq::empty(),
        }
    }

    /// The stream with a reader and a writer.
    pub open spec fn split(self) -> StreamView {
        StreamView { reader: true, holds: false, buffered: Seq::empty(), ..self }
    }

    /// The stream after the writer got a permit.
    pub open spec fn holding(self) -> StreamView {
        if self.holds {
            self
        } else {
            StreamView { holds: true, permits: (self.permits - 1) as u8, ..self }
        }
    }

    /// A permit can be had.
    pub open spec fn may_hold(self) -> bool {
        self.holds || self.permits > 0
    }

    /// The stream after `n` bytes were written: the permit goes back while there is a window.
    pub open spec fn spent(self, n: int) -> StreamView {
        StreamView {
            send_window: (self.send_window - n) as u32,
            holds: false,
            permits: if self.send_window > n {
                (self.permits + 1) as u8
            } else {
                self.permits
            },
            ..self
        }
    }

    /// The stream after the peer granted more.
    pub open spec fn granted(self, len: u32) -> StreamView {
        StreamView {
            send_window: u32::wrapping_add(self.send_window, len),
            permits: if self.permits == 0 {
                1
            } else {
                self.permits
            },
            ..self
        }
    }

    /// The stream after `n` bytes were read; what was read before is granted, once it is enough
    /// and the queue takes the grant.
    pub open spec fn counted(self, n: int, queue: QueueSend) -> StreamView {
        let total = u32::wrapping_add(self.read, n as u32);
        StreamView {
            read: if self.read >= REPORT_WINDOW && queue == QueueSend::Taken {
                u32::wrapping_sub(total, self.read)
            } else {
                total
            },
            ..self
        }
    }

    /// The grant that a read asks for.
    pub open spec fn grant(self) -> Option<EventView> {
        if self.read >= REPORT_WINDOW {
            Some(
                EventView {
                    flag_len: event::pack(self.read as int, FLAG_WIN_UPDATE),
                    stream_id: self.id,
                    body: Seq::empty(),
                },
            )
        } else {
            None
        }
    }
}

/// What an optional event says.
pub open spec fn event_view(ev: Option<Event>) -> Option<EventView> {
    match ev {
        Some(e) => Some(e@),
        None => None,
    }
}

/// Part of the data is handed out, and the rest is kept.
pub open spec fn reads_from(
    pre: StreamView,
    post: StreamView,
    r: (StreamRead, Option<Event>),
    data: Seq<u8>,
    capacity: usize,
    queue: QueueSend,
) -> bool {
    let n = fit(data.len(), capacity as int);
    &&& r.0 is Data
    &&& r.0->Data_0@ == data.take(n)
    &&& event_view(r.1) == pre.grant()
    &&& post == (StreamView { buffered: data.skip(n), ..pre.counted(n, queue) })
}

/// A read of at most `capacity` bytes, where the queue of the stream gave `received`.
pub open spec fn is_read(
    pre: StreamView,
    post: StreamView,
    received: Received,
    capacity: usize,
    queue: QueueSend,
    r: (StreamRead, Option<Event>),
) -> bool {
    if pre.closed {
        r.0 is Data && r.0->Data_0@.len() == 0 && r.1 is None && post == pre
    } else if pre.buffered.len() > 0 {
        reads_from(pre, post, r, pre.buffered, capacity, queue)
    } else {
        match received {
            Received::Data(b) => reads_from(pre, post, r, b@, capacity, queue),
            Received::Gone => r.0 is Reset && r.1 is None && post == pre,
            Received::Pending => r.0 is WouldBlock && r.1 is None && post == pre,
            Received::Failed => r.0 is Failed && r.1 is None && post == pre,
        }
    }
}

/// The end of a stream: the peer is told where it started here and was not told before.
pub open spec fn ends(
    pre: StreamView,
    post: StreamView,
    initial: bool,
    out: Option<EventView>,
) -> bool {
    &&& post == (StreamView { closed: true, ..pre })
    &&& out == if pre.closed || !initial {
        None
    } else {
        Some(event::event_of(FLAG_FIN, pre.id, Seq::empty()))
    }
}

/// A write of as much of `data` as the window allows.
pub open spec fn is_write(
    pre: StreamView,
    post: StreamView,
    data: Seq<u8>,
    queue: QueueSend,
    r: StreamWrite,
) -> bool {
    let n = fit(data.len(), pre.send_window as int);
    if pre.closed {
        r is Reset && post == pre
    } else if !pre.may_hold() {
        r is WouldBlock && post == pre
    } else if n == 0 {
        r is WouldBlock && post == (StreamView { holds: false, ..pre.holding() })
    } else {
        match queue {
            QueueSend::Full => r is WouldBlock && post == pre.holding(),
            QueueSend::Gone => r is Failed && post == pre.holding(),
            QueueSend::Taken => {
                &&& r is Sent
                &&& r->Sent_0@ == event::event_of(FLAG_DATA, pre.id, data.take(n))
                &&& post == pre.holding().spent(n)
            },
        }
    }
}

impl ChannelMuxStream {
    pub fn new(id: u32) -> (r: ChannelMuxStream)
        ensures
            r@ == StreamView::fresh(id),
            r@.wf(),
    {
        let r = ChannelMuxStream {
            stream_id: id,
            send_buf_window: START_WINDOW,
            recv_buf_window: 0,
            permits: 1,
            holds_permit: false,
            closed: false,
            reader: false,
            recv_buf: Vec::new(),
        };
        assert(r@.buffered =~= Seq::empty());
        r
    }

    pub fn id(&self) -> (r: u32)
        ensures
            r == self@.id,
    {
        self.stream_id
    }

    pub fn is_closed(&self) -> (r: bool)
        ensures
            r == self@.closed,
    {
        self.closed
    }

    /// Gives the stream a reader and a writer.
    pub fn split(&mut self)
        ensures
            final(self)@ == old(self)@.split(),
            old(self)@.wf() ==> final(self)@.wf(),
    {
        self.reader = true;
        self.holds_permit = false;
        self.recv_buf = Vec::new();
        assert(self@.buffered =~= Seq::empty());
    }

    /// Closes the stream from its reader or writer; the peer is told once.
    pub fn shutdown(&mut self) -> (r: Option<Event>)
        ensures
            ends(old(self)@, final(self)@, true, event_view(r)),
    {
        if self.closed {
            return None;
        }
        self.closed = true;
        Some(new_fin_event(self.stream_id, false))
    }

    /// Closes the stream from its session; the peer is told where the end started here.
    pub fn close(&mut self, initial: bool) -> (r: Option<Event>)
        ensures
            ends(old(self)@, final(self)@, initial, event_view(r)),
    {
        if self.closed {
            return None;
        }
        self.closed = true;
        if initial {
            Some(new_fin_event(self.stream_id, false))
        } else {
            None
        }
    }

    /// What is told the peer when the stream's reader and writer are gone.
    pub fn last_event(&self) -> (r: Event)
        ensures
            r@ == event::event_of(FLAG_FIN, self@.id, Seq::empty()),
    {
        new_fin_event(self.stream_id, false)
    }

    /// The peer takes `len` bytes more.
    pub fn handle_window_update(&mut self, len: u32)
        requires
            old(self)@.wf(),
        ensures
            final(self)@ == old(self)@.granted(len),
            final(self)@.wf(),
    {
        self.send_buf_window = self.send_buf_window.wrapping_add(len);
        if self.permits == 0 {
            self.permits = 1;
        }
    }

    /// The data for the stream's reader, where it has one.
    pub fn handle_recv_data(&self, data: Vec<u8>) -> (r: Option<Vec<u8>>)
        ensures
            match r {
                Some(d) => self@.reader && d@ == data@,
                None => !self@.reader,
            },
    {
        if self.reader {
            Some(data)
        } else {
            None
        }
    }

    fn hand_out(&mut self, data: Vec<u8>, capacity: usize, queue: QueueSend) -> (r: (
        StreamRead,
        Option<Event>,
    ))
        ensures
            reads_from(old(self)@, final(self)@, r, data@, capacity, queue),
    {
        let ghost pre = self@;
        let len: usize = data.len();
        let n: usize = if len <= capacity {
            len
        } else {
            capacity
        };
        let out = vstd::slice::slice_to_vec(vstd::slice::slice_subrange(data.as_slice(), 0, n));
        let rest = vstd::slice::slice_to_vec(vstd::slice::slice_subrange(data.as_slice(), n, len));
        proof {
            assert(out@ =~= data@.take(n as int));
            assert(rest@ =~= data@.skip(n as int));
        }
        self.recv_buf = rest;
        let before: u32 = self.recv_buf_window;
        self.recv_buf_window = before.wrapping_add(n as u32);
        let mut grant: Option<Event> = None;
        if before >= REPORT_WINDOW {
            grant = Some(new_window_update_event(self.stream_id, before, false));
            if queue == QueueSend::Taken {
                self.recv_buf_window = self.recv_buf_window.wrapping_sub(before);
            }
        }
        (StreamRead::Data(out), grant)
    }

    /// Reads at most `capacity` bytes. `received` counts only where nothing is buffered; `queue`
    /// says what becomes of the grant that the read asks for.
    pub fn read(&mut self, received: Received, capacity: usize, queue: QueueSend) -> (r: (
        StreamRead,
        Option<Event>,
    ))
        ensures
            is_read(old(self)@, final(self)@, received, capacity, queue, r),
    {
        if self.closed {
            return (StreamRead::Data(Vec::new()), None);
        }
        if self.recv_buf.len() > 0 {
            let data = self.recv_buf.clone();
            return self.hand_out(data, capacity, queue);
        }
        match received {
            Received::Data(b) => self.hand_out(b, capacity, queue),
            Received::Gone => (StreamRead::Reset, None),
            Received::Pending => (StreamRead::WouldBlock, None),
            Received::Failed => (StreamRead::Failed, None),
        }
    }

    /// Writes as much as the window allows; `queue` says what becomes of the event.
    pub fn write(&mut self, buf: &[u8], queue: QueueSend) -> (r: StreamWrite)
        requires
            old(self)@.wf(),
        ensures
            final(self)@.wf(),
            is_write(old(self)@, final(self)@, buf@, queue, r),
    {
        if self.closed {
            return StreamWrite::Reset;
        }
        if !self.holds_permit {
            if self.permits == 0 {
                return StreamWrite::WouldBlock;
            }
            self.permits = self.permits - 1;
            self.holds_permit = true;
        }
        let window: u32 = self.send_buf_window;
        let len: usize = buf.len();
        let n: usize = if len <= window as usize {
            len
        } else {
            window as usize
        };
        if n == 0 {
            self.holds_permit = false;
            return StreamWrite::WouldBlock;
        }
        match queue {
            QueueSend::Full => StreamWrite::WouldBlock,
            QueueSend::Gone => StreamWrite::Failed,
            QueueSend::Taken => {
                let data = vstd::slice::slice_subrange(buf, 0, n);
                assert(data@ =~= buf@.take(n as int));
                let ev = new_data_event(self.stream_id, data, false);
                self.send_buf_window = window - n as u32;
                self.holds_permit = false;
                if window > n as u32 {
                    self.permits = self.permits + 1;
                }
                StreamWrite::Sent(ev)
            },
        }
    }
}

/// The window is used up exactly: nothing is sent that the peer did not grant.
pub proof fn writes_stay_within_the_window(s: StreamView, len: nat)
    requires
        s.wf(),
        s.may_hold(),
    ensures
        ({
            let n = fit(len, s.send_window as int);
            &&& 0 <= n <= s.send_window
            &&& s.holding().spent(n).send_window + n == s.send_window
        }),
{
}

/// A window that was used up and granted anew can be written in: the writer is not stuck.
pub proof fn granted_window_can_be_written_in(s: StreamView, len: u32)
    requires
        s.wf(),
    ensures
        s.granted(len).may_hold(),
{
}

/// What is read is the next of what came, as much as there is room for, and the rest is kept; a
/// closed stream gives its end, and without data the state of the queue is told.
pub proof fn read_gives_the_next_bytes(
    pre: StreamView,
    post: StreamView,
    received: Received,
    capacity: usize,
    queue: QueueSend,
    r: (StreamRead, Option<Event>),
)
    requires
        is_read(pre, post, received, capacity, queue, r),
    ensures
        pre.closed ==> r.0 is Data && r.0->Data_0@.len() == 0 && post == pre,
        !pre.closed && (pre.buffered.len() > 0 || received is Data) ==> {
            let there = if pre.buffered.len() > 0 {
                pre.buffered
            } else {
                received->Data_0@
            };
            &&& r.0 is Data
            &&& r.0->Data_0@ + post.buffered == there
            &&& r.0->Data_0@.len() <= capacity
            &&& r.0->Data_0@.len() == capacity || post.buffered.len() == 0
            &&& post.send_window == pre.send_window
        },
        !pre.closed && pre.buffered.len() == 0 && !(received is Data) ==> {
            &&& post == pre
            &&& r.1 is None
            &&& r.0 is Reset <==> received is Gone
            &&& r.0 is WouldBlock <==> received is Pending
            &&& r.0 is Failed <==> received is Failed
        },
{
    let there = if pre.buffered.len() > 0 {
        pre.buffered
    } else {
        received->Data_0@
    };
    let n = fit(there.len(), capacity as int);
    assert(there.take(n) + there.skip(n) =~= there);
}

/// What has been read is granted once it comes to the amount that is worth a report, all of it;
/// what the queue takes is not granted a second time.
pub proof fn read_bytes_are_granted_once(
    pre: StreamView,
    post: StreamView,
    r: (StreamRead, Option<Event>),
    data: Seq<u8>,
    capacity: usize,
    queue: QueueSend,
)
    requires
        reads_from(pre, post, r, data, capacity, queue),
        pre.read + data.len() <= u32::MAX,
        pre.read < 0x100_0000,
    ensures
        r.1 is Some <==> pre.read >= 32768,
        r.1 matches Some(ev) ==> ev@.header().flag() == 4 && ev@.header().body_len() == pre.read
            && ev@.stream_id == pre.id && ev@.body.len() == 0,
        ({
            let n = r.0->Data_0@.len();
            post.read == if r.1 is Some && queue is Taken {
                n as int
            } else {
                pre.read + n
            }
        }),
{
    let n = fit(data.len(), capacity as int);
    assert(data.take(n).len() == n);
}

/// What is written is the start of what was given, as much as the window allows, in one event of
/// the stream, and the window is less by exactly that. Nothing is written on a closed stream, in a
/// window that is used up, or where the queue takes nothing.
pub proof fn written_bytes_fit_the_window(
    pre: StreamView,
    post: StreamView,
    data: Seq<u8>,
    queue: QueueSend,
    r: StreamWrite,
)
    requires
        pre.wf(),
        is_write(pre, post, data, queue, r),
        data.len() < 0x100_0000,
    ensures
        r is Sent <==> !pre.closed && pre.may_hold() && data.len() > 0 && pre.send_window > 0
            && queue is Taken,
        match r {
            StreamWrite::Sent(ev) => {
                let n = ev@.body.len() as int;
                &&& 0 < n <= data.len()
                &&& ev@.body == data.take(n)
                &&& ev@.header().flag() == 3
                &&& ev@.header().body_len() == n
                &&& ev@.stream_id == pre.id
                &&& post.send_window + n == pre.send_window
                &&& n == data.len() || post.send_window == 0
            },
            _ => post.send_window == pre.send_window,
        },
        r is Reset <==> pre.closed,
        post.buffered == pre.buffered,
        post.closed == pre.closed,
{
}

/// The end of a stream is told to the peer exactly once, and only where it started here; after it
/// the stream is closed for reading and writing.
pub proof fn end_of_a_stream_is_told_once(
    pre: StreamView,
    mid: StreamView,
    first: Option<EventView>,
    post: StreamView,
    again: bool,
    second: Option<EventView>,
    peer: StreamView,
    told: Option<EventView>,
)
    requires
        !pre.closed,
        ends(pre, mid, true, first),
        ends(mid, post, again, second),
        ends(pre, peer, false, told),
    ensures
        first is Some,
        first->Some_0.header().flag() == 2,
        first->Some_0.stream_id == pre.id,
        first->Some_0.body.len() == 0,
        second is None,
        told is None,
        mid.closed && post.closed && peer.closed,
        mid.buffered == pre.buffered && mid.send_window == pre.send_window,
{
}

} // verus!
