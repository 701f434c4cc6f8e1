use bytes::Bytes;
use rsnova::mux::connection::{
    ping_not_sent, ping_result, read_frame, AcceptError, Action, Frame, PingStart, PongPoll,
    PING_TIMEOUT_SECS,
};
use rsnova::mux::event::{
    encode_event, get_flag_len, new_data_event, new_ping_event, read_event, Event, EventWrite,
    WriteZero, EVENT_HEADER_LEN, FLAG_DATA, FLAG_PING,
};
use rsnova::mux::stream::{Control, Inbound, ReadOutcome, Reserve, WriteStep};
use rsnova::mux::{Connection, Mode, MuxStream, INITIAL_STREAM_WINDOW};
use std::collections::{HashMap, VecDeque};
use std::sync::atomic::{AtomicU32, Ordering};
use std::sync::Arc;
use std::task::{Wake, Waker};

struct Nobody;

impl Wake for Nobody {
    fn wake(self: Arc<Self>) {}
}

fn waker() -> Waker {
    Waker::from(Arc::new(Nobody))
}

/// One end of a link: its connection, what it has written, and the queues of its streams.
struct End {
    conn: Connection,
    out: Vec<u8>,
    queues: HashMap<u32, VecDeque<Option<Bytes>>>,
    handed_over: Vec<(u32, u64)>,
    refused: Vec<AcceptError>,
    pongs: Vec<u32>,
    stopped: bool,
}

impl End {
    fn new(mode: Mode, id: u32, window: u32) -> End {
        End {
            conn: Connection::new_with_stream_window(mode, id, window),
            out: Vec::new(),
            queues: HashMap::new(),
            handed_over: Vec::new(),
            refused: Vec::new(),
            pongs: Vec::new(),
            stopped: false,
        }
    }

    fn send(&mut self, ev: &Event) {
        self.out.extend_from_slice(&encode_event(ev));
    }

    fn control(&mut self, ctrl: Control) {
        let step = self.conn.step(ctrl);
        for action in step.actions {
            match action {
                Action::Write(ev) | Action::TryWrite(ev) => self.send(&ev),
                Action::Deliver(sid, data) => {
                    self.queues.entry(sid).or_default().push_back(data);
                }
                Action::HandOver(sid, flow) => self.handed_over.push((sid, flow)),
                Action::RefuseAccept(e) => self.refused.push(e),
                Action::Wake(_, waker) => waker.wake(),
            }
        }
        if step.stop {
            self.stopped = true;
        }
    }

    /// Takes what the other end has written.
    fn receive(&mut self, from: &mut Vec<u8>) {
        while let Ok((ev, n)) = read_event(from) {
            from.drain(..n);
            match read_frame(ev) {
                Frame::Control(ctrl) => self.control(ctrl),
                Frame::Pong(nonce) => self.pongs.push(nonce),
                Frame::Ignored => {}
            }
        }
    }

    fn read(&mut self, stream: &mut MuxStream, capacity: usize) -> Option<Vec<u8>> {
        let sid = stream.id();
        let inbound = if stream.wants_inbound() {
            match self.queues.entry(sid).or_default().pop_front() {
                Some(Some(data)) => Inbound::Data(data),
                Some(None) => Inbound::Reset,
                None => Inbound::Pending,
            }
        } else {
            Inbound::Pending
        };
        let step = stream.poll_read(inbound, capacity);
        if let Some(n) = step.window_update {
            if let Some(ev) = self.conn.streams().apply_window_update(sid, n) {
                self.send(&ev);
            }
        }
        match step.outcome {
            ReadOutcome::Ready(data) => Some(data.to_vec()),
            ReadOutcome::Pending => None,
            ReadOutcome::Reset => panic!("reset"),
        }
    }

    /// How much of the data went out.
    fn write(&mut self, stream: &MuxStream, data: &[u8]) -> usize {
        match self
            .conn
            .streams()
            .write(stream, &waker(), data, Reserve::Ready)
        {
            WriteStep::Send(sent) => {
                let n = sent.len();
                self.control(Control::StreamData(stream.id(), sent, false));
                n
            }
            WriteStep::Pending | WriteStep::Nothing => 0,
            _ => panic!("closed"),
        }
    }

    fn shutdown(&mut self, stream: &mut MuxStream) {
        let step = stream.poll_shutdown();
        if let Some(n) = step.window_update {
            if let Some(ev) = self.conn.streams().apply_window_update(stream.id(), n) {
                self.send(&ev);
            }
        }
        if let Some(ctrl) = step.control {
            self.control(ctrl);
        }
    }
}

fn exchange(a: &mut End, b: &mut End) {
    let mut out = std::mem::take(&mut a.out);
    b.receive(&mut out);
    let mut back = std::mem::take(&mut b.out);
    a.receive(&mut back);
}

fn ping(a: &mut End, b: &mut End) {
    let nonce = match a.conn.ping() {
        PingStart::Send(nonce) => nonce,
        PingStart::Alive => panic!("no stream is there"),
    };
    a.control(Control::Ping(nonce));
    exchange(a, b);
    let pong = a.pongs.pop().unwrap();
    assert!(ping_result(nonce, PongPoll::Pong(pong)).unwrap().is_ok());
}

#[test]
fn ping_roundtrip_succeeds() {
    let mut client = End::new(Mode::Client, 0, INITIAL_STREAM_WINDOW);
    let mut server = End::new(Mode::Server, 1, INITIAL_STREAM_WINDOW);
    ping(&mut client, &mut server);
    ping(&mut client, &mut server);
}

#[test]
fn ping_short_circuits_when_streams_active() {
    let mut client = End::new(Mode::Client, 0, INITIAL_STREAM_WINDOW);
    let (_stream, ctrl) = client.conn.open_stream();
    client.control(ctrl);
    assert!(
        client.conn.has_active_streams(),
        "dispatcher never activated the stream"
    );
    assert_eq!(client.conn.ping(), PingStart::Alive);
}

#[test]
fn ping_times_out_when_peer_silent() {
    let mut client = End::new(Mode::Client, 0, INITIAL_STREAM_WINDOW);
    let nonce = match client.conn.ping() {
        PingStart::Send(nonce) => nonce,
        PingStart::Alive => panic!("no stream is there"),
    };
    client.control(Control::Ping(nonce));
    let err = ping_result(nonce, PongPoll::TimedOut).unwrap().unwrap_err();
    assert!(
        err.message().contains("timeout"),
        "expected timeout error, got: {}",
        err.message()
    );
    assert_eq!(err.message(), "ping timeout after 5s");
    assert!(!err.is_fatal());
    assert_eq!(PING_TIMEOUT_SECS, 5);
}

#[test]
fn an_old_pong_does_not_end_a_ping() {
    assert!(ping_result(2, PongPoll::Pong(1)).is_none());
    let gone = ping_result(2, PongPoll::Gone).unwrap().unwrap_err();
    assert!(gone.is_fatal());
    assert_eq!(gone.message(), "mux task terminated; connection unhealthy");
    assert_eq!(ping_not_sent().message(), "mux task terminated; ping not sent");
}

#[test]
fn dispatcher_exits_after_close_even_when_peer_silent() {
    let mut client = End::new(Mode::Client, 0, INITIAL_STREAM_WINDOW);
    let close = client.conn.close();
    client.control(close);
    assert!(client.stopped);
    let (reset, refused, woken) = client.conn.streams().teardown();
    assert!(reset.is_empty());
    assert!(woken.is_empty());
    assert_eq!(refused, None);
    assert!(client.out.is_empty());
}

#[test]
fn teardown_resets_streams_and_tells_the_waiting_call() {
    let mut client = End::new(Mode::Client, 0, INITIAL_STREAM_WINDOW);
    let (_stream, ctrl) = client.conn.open_stream();
    client.control(ctrl);
    let accept = client.conn.accept_stream();
    client.control(accept);
    let again = client.conn.accept_stream();
    client.control(again);
    assert_eq!(client.refused, vec![AcceptError::Duplicate]);
    let (reset, refused, woken) = client.conn.streams().teardown();
    assert_eq!(reset, vec![0]);
    assert!(woken.is_empty());
    assert_eq!(refused, Some(AcceptError::Closed));
    assert_eq!(client.conn.active_stream_count(), 0);
}

#[test]
fn window_update_duplex() {
    const TRANSFER_SIZE: usize = 64 * 1024;
    const SMALL_WINDOW: u32 = 4096;
    let mut client = End::new(Mode::Client, 0, SMALL_WINDOW);
    let mut server = End::new(Mode::Server, 1, SMALL_WINDOW);
    ping(&mut client, &mut server);

    let (mut client_stream, ctrl) = client.conn.open_stream();
    client.control(ctrl);
    let accept = server.conn.accept_stream();
    server.control(accept);
    exchange(&mut client, &mut server);
    assert_eq!(server.handed_over, vec![(0, 0)]);
    let mut server_stream = server.conn.accepted(0, 0);

    let payload = vec![0xABu8; TRANSFER_SIZE];
    let mut written = 0;
    let mut shut = false;
    let mut echo: VecDeque<u8> = VecDeque::new();
    let mut nread = 0;
    let mut server_done = false;
    let mut echo_shut = false;
    let mut echo_buf: Vec<u8> = Vec::with_capacity(TRANSFER_SIZE);
    let mut client_done = false;
    let mut rounds = 0;
    while !client_done {
        rounds += 1;
        assert!(rounds < 10_000, "the transfer is stuck");
        if written < TRANSFER_SIZE {
            written += client.write(&client_stream, &payload[written..]);
        } else if !shut {
            client.shutdown(&mut client_stream);
            shut = true;
        }
        exchange(&mut client, &mut server);
        if !server_done {
            if let Some(data) = server.read(&mut server_stream, 8192) {
                if data.is_empty() {
                    server_done = true;
                }
                nread += data.len();
                echo.extend(data);
            }
        }
        let waiting: Vec<u8> = echo.iter().copied().collect();
        let n = server.write(&server_stream, &waiting);
        echo.drain(..n);
        if server_done && echo.is_empty() && !echo_shut {
            server.shutdown(&mut server_stream);
            echo_shut = true;
        }
        exchange(&mut server, &mut client);
        if let Some(data) = client.read(&mut client_stream, 8192) {
            if data.is_empty() {
                client_done = true;
            }
            echo_buf.extend_from_slice(&data);
        }
    }
    assert_eq!(echo_buf.len(), TRANSFER_SIZE, "echoed data length");
    assert_eq!(nread, TRANSFER_SIZE, "server echo count");
    assert_eq!(&echo_buf, &payload, "echoed data matches");
}

#[test]
fn data_beyond_the_window_closes_the_stream() {
    let mut server = End::new(Mode::Server, 1, 16);
    server.control(Control::NewStream(
        rsnova::mux::stream::NewStreamParams {
            stream_id: 4,
            flow: None,
        },
    ));
    server.control(Control::StreamData(4, Bytes::from(vec![1u8; 17]), true));
    assert_eq!(server.conn.active_stream_count(), 0);
    assert!(server.queues[&4][0].is_none());
    let (ev, _) = read_event(&server.out).unwrap();
    assert_eq!(ev.header.flags(), rsnova::mux::event::FLAG_FIN);
    assert_eq!(ev.header.stream_id, 4);
}

#[test]
fn sweep_takes_off_what_nobody_reads() {
    let mut server = End::new(Mode::Server, 1, 16);
    for sid in [2u32, 4] {
        server.control(Control::NewStream(
            rsnova::mux::stream::NewStreamParams {
                stream_id: sid,
                flow: None,
            },
        ));
    }
    server.conn.streams().receiver_dropped(4, 0);
    server.conn.streams().receiver_dropped(2, 0);
    let (stalled, woken) = server.conn.streams().tick();
    assert!(stalled.is_empty() && woken.is_empty());
    assert_eq!(server.conn.active_stream_count(), 1);
}

#[test]
fn the_two_sides_number_streams_apart() {
    let mut client = Connection::new_with_stream_window(Mode::Client, 0, 16);
    let mut server = Connection::new_with_stream_window(Mode::Server, 0, 16);
    assert_eq!(client.open_stream().0.id(), 0);
    assert_eq!(client.open_stream().0.id(), 2);
    assert_eq!(server.open_stream().0.id(), 1);
    assert_eq!(server.open_stream().0.id(), 3);
}

/// Takes at most so many bytes at a time.
fn write_in_pieces(ev: Event, max_write: usize) -> Vec<u8> {
    let mut written = Vec::new();
    let mut w = EventWrite::new(ev);
    while !w.is_done() {
        let mut n = 0;
        {
            let (head, body) = w.slices();
            for part in [head, body] {
                let take = (max_write - n).min(part.len());
                written.extend_from_slice(&part[..take]);
                n += take;
            }
        }
        w.advance(n).unwrap();
    }
    written
}

fn expected_bytes(flag_len: u32, stream_id: u32, body: &[u8]) -> Vec<u8> {
    let mut expected = Vec::with_capacity(EVENT_HEADER_LEN + body.len());
    expected.extend_from_slice(&flag_len.to_le_bytes());
    expected.extend_from_slice(&stream_id.to_le_bytes());
    expected.extend_from_slice(body);
    expected
}

#[test]
fn write_event_writes_empty_body_header() {
    let ev = new_ping_event();
    assert_eq!(
        write_in_pieces(ev, 3),
        expected_bytes(get_flag_len(0, FLAG_PING), 0, &[])
    );
}

#[test]
fn write_event_handles_partial_vectored_writes() {
    let body = Bytes::from_static(b"hello world");
    let ev = new_data_event(42, body.clone());
    assert_eq!(
        write_in_pieces(ev, 3),
        expected_bytes(get_flag_len(body.len() as u32, FLAG_DATA), 42, &body)
    );
}

#[test]
fn a_writer_that_takes_nothing_is_an_error() {
    let mut w = EventWrite::new(new_ping_event());
    assert_eq!(w.advance(0), Err(WriteZero));
}

#[test]
fn reads_keep_the_order_and_grant_in_halves_of_the_window() {
    let mut s = MuxStream::new(0, 4, 0, 8);
    let mut queue: VecDeque<&[u8]> = VecDeque::from(vec![&b"abcdef"[..], &b"gh"[..], &b"ijk"[..]]);
    let mut got: Vec<u8> = Vec::new();
    let mut granted = 0;
    for capacity in [4usize, 0, 3, 5, 1, 0, 9] {
        let inbound = if s.wants_inbound() {
            match queue.pop_front() {
                Some(data) => Inbound::Data(Bytes::copy_from_slice(data)),
                None => Inbound::Pending,
            }
        } else {
            Inbound::Pending
        };
        let step = s.poll_read(inbound, capacity);
        if let ReadOutcome::Ready(data) = step.outcome {
            got.extend_from_slice(&data);
        }
        if let Some(n) = step.window_update {
            assert!(n >= 4);
            granted += n as usize;
        }
        assert!(granted <= got.len() && got.len() < granted + 4);
    }
    assert_eq!(got, b"abcdefghijk".to_vec());
    assert_eq!(granted, 8);
    let end = s.poll_read(Inbound::Data(Bytes::new()), 9);
    assert!(matches!(end.outcome, ReadOutcome::Ready(data) if data.is_empty()));
    let after = s.poll_read(Inbound::Reset, 9);
    assert!(matches!(after.outcome, ReadOutcome::Ready(data) if data.is_empty()));
}

#[test]
fn a_reset_stream_stays_reset() {
    let mut s = MuxStream::new(0, 4, 0, 8);
    assert!(matches!(s.poll_read(Inbound::Pending, 9).outcome, ReadOutcome::Pending));
    assert!(matches!(s.poll_read(Inbound::Reset, 9).outcome, ReadOutcome::Reset));
    assert!(matches!(s.poll_read(Inbound::Pending, 9).outcome, ReadOutcome::Reset));
    assert!(matches!(s.poll_read(Inbound::Gone, 9).outcome, ReadOutcome::Reset));
}

/// Counts how often it was woken.
struct Bell {
    rung: AtomicU32,
}

impl Wake for Bell {
    fn wake(self: Arc<Self>) {
        self.rung.fetch_add(1, Ordering::SeqCst);
    }
}

/// A client with one stream whose writer waits for window.
fn parked_client(bell: &Arc<Bell>) -> (End, MuxStream) {
    let mut client = End::new(Mode::Client, 0, 16);
    let (stream, ctrl) = client.conn.open_stream();
    client.control(ctrl);
    assert_eq!(client.write(&stream, &[1; 16]), 16);
    let waker = Waker::from(bell.clone());
    let step = client
        .conn
        .streams()
        .write(&stream, &waker, &[1], Reserve::Ready);
    assert!(matches!(step, WriteStep::Pending));
    assert_eq!(bell.rung.load(Ordering::SeqCst), 0);
    (client, stream)
}

fn bell() -> Arc<Bell> {
    Arc::new(Bell {
        rung: AtomicU32::new(0),
    })
}

#[test]
fn a_parked_writer_is_woken_by_a_grant() {
    let bell = bell();
    let (mut client, stream) = parked_client(&bell);
    client.control(Control::WindowUpdateFromPeer(stream.id(), 8));
    assert_eq!(bell.rung.load(Ordering::SeqCst), 1);
    assert_eq!(client.write(&stream, &[1; 16]), 8);
    client.control(Control::WindowUpdateFromPeer(stream.id(), 8));
    assert_eq!(bell.rung.load(Ordering::SeqCst), 1);
}

#[test]
fn a_parked_writer_is_woken_by_the_end_of_its_stream() {
    let bell = bell();
    let (mut client, _stream) = parked_client(&bell);
    let (_, _, woken) = client.conn.streams().teardown();
    assert_eq!(woken.len(), 1);
    for (sid, waker) in woken {
        assert_eq!(sid, 0);
        waker.wake();
    }
    assert_eq!(bell.rung.load(Ordering::SeqCst), 1);

    let (mut other, stream) = parked_client(&self::bell());
    other.conn.streams().receiver_dropped(stream.id(), stream.flow());
    let (_, woken) = other.conn.streams().tick();
    assert_eq!(woken.len(), 1);
}

#[test]
fn a_stream_may_be_written_before_it_is_announced() {
    let mut client = End::new(Mode::Client, 0, 16);
    let mut server = End::new(Mode::Server, 1, 16);
    let (mut client_stream, announcement) = client.conn.open_stream();
    let sent = match client.conn.streams().write(
        &client_stream,
        &waker(),
        &[7; 20],
        Reserve::Ready,
    ) {
        WriteStep::Send(sent) => sent,
        _ => panic!("not sent"),
    };
    assert_eq!(sent.len(), 16);
    assert_eq!(client.write(&client_stream, &[7]), 0);
    assert_eq!(client.conn.active_stream_count(), 0);

    client.control(announcement);
    client.control(Control::StreamData(client_stream.id(), sent, false));
    let accept = server.conn.accept_stream();
    server.control(accept);
    exchange(&mut client, &mut server);
    let (id, flow) = server.handed_over[0];
    let mut server_stream = server.conn.accepted(id, flow);
    assert_eq!(server.read(&mut server_stream, 100), Some(vec![7; 16]));
    exchange(&mut server, &mut client);
    assert_eq!(client.write(&client_stream, &[8; 20]), 16);
    client.shutdown(&mut client_stream);
    exchange(&mut client, &mut server);
    assert_eq!(server.read(&mut server_stream, 100), Some(vec![8; 16]));
    assert_eq!(server.read(&mut server_stream, 100), Some(vec![]));
}

#[test]
fn a_closed_stream_does_not_write_on_its_successor() {
    let mut server = End::new(Mode::Server, 1, 16);
    for _ in 0..2 {
        let accept = server.conn.accept_stream();
        server.control(accept);
        server.control(Control::NewStream(
            rsnova::mux::stream::NewStreamParams {
                stream_id: 4,
                flow: None,
            },
        ));
        if server.handed_over.len() == 1 {
            server.control(Control::StreamClose(4, true));
        }
    }
    assert_eq!(server.handed_over, vec![(4, 0), (4, 1)]);
    let old = server.conn.accepted(4, 0);
    let new = server.conn.accepted(4, 1);
    assert!(matches!(
        server.conn.streams().write(&old, &waker(), &[1], Reserve::Ready),
        WriteStep::Closed
    ));
    assert_eq!(server.write(&new, &[1; 20]), 16);
    server.conn.streams().receiver_dropped(4, 0);
    server.conn.streams().tick();
    assert_eq!(server.conn.streams().flow_of(4), Some(1));
    assert_eq!(server.conn.streams().flow_of(5), None);
}

#[test]
fn a_drained_stream_has_half_a_window_at_least() {
    for window in [1u32, 2, 3, 16, 17] {
        let mut client = End::new(Mode::Client, 0, window);
        let mut server = End::new(Mode::Server, 1, window);
        let (stream, announcement) = client.conn.open_stream();
        client.control(announcement);
        let accept = server.conn.accept_stream();
        server.control(accept);
        exchange(&mut client, &mut server);
        let (id, flow) = server.handed_over[0];
        let mut reader = server.conn.accepted(id, flow);
        let mut written: Vec<u8> = Vec::new();
        let mut read: Vec<u8> = Vec::new();
        for round in 0u8..40 {
            let data = vec![round; 1 + round as usize % 5];
            let n = client.write(&stream, &data);
            written.extend_from_slice(&data[..n]);
            exchange(&mut client, &mut server);
            while let Some(piece) = server.read(&mut reader, 2) {
                read.extend_from_slice(&piece);
            }
            exchange(&mut server, &mut client);
            assert_eq!(read, written);
            let half = window - window / 2;
            assert!(n > 0 && n >= data.len().min(half as usize));
        }
    }
}
