use bytes::BytesMut;
use rsnova::common::timeout_reader::{Delay, TimedOut, TimeoutState};
use rsnova::mux::common::{
    ChannelMuxStream, QueueSend, Received, StreamRead, StreamWrite, START_WINDOW,
};
use rsnova::mux::conn::CommonMuxConn;
use rsnova::mux::frame;
use rsnova::mux::manager::{ParseError, SessionManager};
use rsnova::mux::message::ConnectRequest;
use rsnova::mux::pool::{channel_url_key, may_close, ChannelState, MuxSessionManager};
use rsnova::mux::processor::{
    EventPoll, LocalStep, MuxConnectionProcessor, Polled, Sending, Task, TaskPoll,
};
use rsnova::mux::relay::{relay_route, Relay, RelayAction, RelayEvent, RelayRoute};
use rsnova::mux::session::{ChannelMuxSession, MuxAction};
use rsnova::mux::tcp::{
    credentials, init_channel, plan_connect, plan_listen, AddressError, ChannelServers,
    ConnectPlan,
};
use rsnova::rmux::event::{
    new_data_event, new_fin_event, new_shutdown_event, new_syn_event, new_window_update_event,
    FLAG_DATA, FLAG_FIN, FLAG_PING, FLAG_SHUTDOWN, FLAG_SYN, FLAG_WIN_UPDATE,
};

#[test]
fn stream_writes_within_its_window() {
    let mut s = ChannelMuxStream::new(5);
    let data = vec![1u8; START_WINDOW as usize + 10];
    match s.write(&data, QueueSend::Taken) {
        StreamWrite::Sent(ev) => {
            assert_eq!(ev.header.flags(), FLAG_DATA);
            assert_eq!(ev.body.len(), START_WINDOW as usize);
        }
        _ => panic!("the window is open"),
    }
    assert!(matches!(s.write(b"x", QueueSend::Taken), StreamWrite::WouldBlock));
    s.handle_window_update(3);
    match s.write(b"abcdef", QueueSend::Taken) {
        StreamWrite::Sent(ev) => assert_eq!(ev.body, b"abc".to_vec()),
        _ => panic!("the window was granted"),
    }
    s.handle_window_update(3);
    assert!(matches!(s.write(b"a", QueueSend::Full), StreamWrite::WouldBlock));
    assert!(matches!(s.write(b"a", QueueSend::Gone), StreamWrite::Failed));
    assert!(s.close(true).is_some());
    assert!(s.close(true).is_none());
    assert!(matches!(s.write(b"a", QueueSend::Taken), StreamWrite::Reset));
}

#[test]
fn stream_grants_what_was_read_before() {
    let mut s = ChannelMuxStream::new(5);
    s.split();
    let (r, grant) = s.read(Received::Data(vec![2; 40000]), 100, QueueSend::Taken);
    assert!(matches!(r, StreamRead::Data(d) if d.len() == 100));
    assert!(grant.is_none());
    let (r, grant) = s.read(Received::Pending, 50000, QueueSend::Taken);
    assert!(matches!(r, StreamRead::Data(d) if d.len() == 39900));
    assert!(grant.is_none());
    let (_, grant) = s.read(Received::Data(vec![2; 10]), 50000, QueueSend::Taken);
    let grant = grant.unwrap();
    assert_eq!((grant.header.flags(), grant.header.len()), (FLAG_WIN_UPDATE, 40000));
    let (r, grant) = s.read(Received::Pending, 10, QueueSend::Taken);
    assert!(matches!(r, StreamRead::WouldBlock) && grant.is_none());
    assert!(matches!(s.read(Received::Gone, 1, QueueSend::Taken).0, StreamRead::Reset));
    assert!(matches!(s.read(Received::Failed, 1, QueueSend::Taken).0, StreamRead::Failed));
    assert_eq!(s.shutdown().unwrap().header.flags(), FLAG_FIN);
    assert!(matches!(s.read(Received::Gone, 1, QueueSend::Taken).0, StreamRead::Data(d) if d.is_empty()));
    assert_eq!(s.last_event().header.stream_id, 5);
}

#[test]
fn session_opens_streams_that_the_peer_serves() {
    let mut client = ChannelMuxSession::new(true, 1);
    let mut server = ChannelMuxSession::new(false, 2);
    let (sid, syn) = client.open_stream("tcp", "a:1");
    assert_eq!((sid, client.num_of_streams()), (1, 1));
    match server.handle_mux_event(syn) {
        MuxAction::Relay { id, request } => {
            assert_eq!((id, request.proto.as_str(), request.addr.as_str()), (1, "tcp", "a:1"));
        }
        _ => panic!("a stream is opened"),
    }
    assert!(matches!(
        server.handle_mux_event(new_data_event(1, b"x", true)),
        MuxAction::Deliver { id: 1, data } if data == b"x".to_vec()
    ));
    assert!(matches!(
        client.handle_mux_event(new_data_event(1, b"x", true)),
        MuxAction::Nothing
    ));
    assert!(matches!(
        server.handle_mux_event(new_fin_event(1, true)),
        MuxAction::Close(1)
    ));
    assert_eq!(server.num_of_streams(), 0);
    assert_eq!(server.open_stream("tcp", "a:1").0, 2);
    assert_eq!(client.close_stream(1, true).unwrap().header.flags(), FLAG_FIN);
    assert!(client.close_stream(1, true).is_none());
}

#[test]
fn unreadable_request_is_refused() {
    let mut s = ChannelMuxSession::new(false, 2);
    match s.handle_mux_event(new_syn_event(9, b"?")) {
        MuxAction::Refuse(fin) => {
            assert_eq!((fin.header.flags(), fin.header.stream_id), (FLAG_FIN, 9));
        }
        _ => panic!("the request cannot be read"),
    }
}

#[test]
fn granted_window_reaches_the_stream() {
    let mut s = ChannelMuxSession::new(true, 1);
    let (sid, _) = s.open_stream("tcp", "a:1");
    let mut stream = s.take_stream(sid).unwrap();
    let all = vec![0u8; START_WINDOW as usize];
    assert!(matches!(stream.write(&all, QueueSend::Taken), StreamWrite::Sent(_)));
    s.put_stream(stream);
    s.handle_mux_event(new_window_update_event(sid, 7, true));
    let mut stream = s.take_stream(sid).unwrap();
    assert!(matches!(stream.write(&all, QueueSend::Taken), StreamWrite::Sent(ev) if ev.body.len() == 7));
    assert_eq!(s.ping().header.flags(), FLAG_PING);
    assert_eq!(s.close().header.flags(), FLAG_SHUTDOWN);
    assert_eq!(s.id(), 1);
}

#[test]
fn busy_event_is_sent_again_first() {
    let mut p = MuxConnectionProcessor::new(true, 1);
    let ev = new_data_event(1, b"x", false);
    let sent = match p.poll_local_event(EventPoll::Event(ev)) {
        LocalStep::Send { event, fresh: true, fin: None } => event,
        _ => panic!("the event is sent"),
    };
    let (polled, _) = p.local_event_sent(true, Sending::Busy(sent), true);
    assert_eq!(polled, Polled::Ready);
    match p.poll_local_event(EventPoll::Event(new_fin_event(1, false))) {
        LocalStep::Send { event, fresh: false, .. } => assert_eq!(event.body, b"x".to_vec()),
        _ => panic!("the busy event goes first"),
    }
    let (polled, _) = p.local_event_sent(false, Sending::Accepted, true);
    assert_eq!(polled, Polled::NotReady);
    assert!(matches!(p.poll_local_event(EventPoll::Pending), LocalStep::Flush));
    assert!(matches!(
        p.poll_local_event(EventPoll::End),
        LocalStep::Return(Polled::Ready, None)
    ));
}

#[test]
fn shutdown_resets_the_connection() {
    let mut p = MuxConnectionProcessor::new(false, 1);
    match p.poll_local_event(EventPoll::Event(new_shutdown_event(0, false))) {
        LocalStep::Return(Polled::Reset, Some(ev)) => assert_eq!(ev.header.flags(), FLAG_SHUTDOWN),
        _ => panic!("the connection ends"),
    }
    assert!(p.is_closed());
    assert!(p.close().is_none());
    assert_eq!(p.poll(Polled::Ready, Polled::Ready, Polled::Ready), Polled::Reset);
    let mut q = MuxConnectionProcessor::new(false, 1);
    assert_eq!(q.poll_remote_event(EventPoll::End, true).0, Polled::Reset);
    let mut r = MuxConnectionProcessor::new(false, 1);
    assert_eq!(r.local_event_sent(true, Sending::Failed, true).0, Polled::Reset);
    let mut f = MuxConnectionProcessor::new(false, 1);
    assert_eq!(f.poll_remote_event(EventPoll::Pending, false).0, Polled::Reset);
}

#[test]
fn tasks_run_on_the_session() {
    let mut p = MuxConnectionProcessor::new(true, 1);
    let open = Task::Open {
        proto: "tcp".to_string(),
        addr: "a:1".to_string(),
    };
    let (polled, ev, _) = p.poll_task(TaskPoll::Task(open), true);
    assert_eq!(polled, Polled::Ready);
    assert_eq!(ev.unwrap().header.flags(), FLAG_SYN);
    assert_eq!(p.session().num_of_streams(), 1);
    let (_, ev, _) = p.poll_task(TaskPoll::Task(Task::Ping), true);
    assert_eq!(ev.unwrap().header.flags(), FLAG_PING);
    let (_, ev, _) = p.poll_task(TaskPoll::Task(Task::Close), true);
    assert_eq!(ev.unwrap().header.flags(), FLAG_SHUTDOWN);
    assert_eq!(p.poll_task(TaskPoll::End, true).0, Polled::Ready);
    assert_eq!(p.poll_task(TaskPoll::Pending, true).0, Polled::NotReady);
    assert_eq!(p.poll_task(TaskPoll::Failed, true).0, Polled::Reset);
    assert_eq!(
        MuxConnectionProcessor::new(true, 1).poll(Polled::NotReady, Polled::Ready, Polled::NotReady),
        Polled::Ready
    );
}

#[test]
fn frames_read_back() {
    let codec = frame::EventCodec::new();
    let mut buf = BytesMut::new();
    codec.encode(&frame::new_data_event(258, b"hello"), &mut buf);
    codec.encode(&frame::new_fin_event(1), &mut buf);
    assert_eq!(&buf[..10], &[0, 2, 2, 1, 0, 0, 5, 0, 0, 0]);
    let (one, n) = frame::read_event(&buf).unwrap();
    assert_eq!((one.header.stream_id, n), (258, 15));
    let ev = codec.decode(&mut buf).unwrap();
    assert_eq!((ev.header.flags, ev.header.len), (frame::FLAG_DATA, 5));
    assert_eq!(ev.body, b"hello".to_vec());
    let fin = codec.decode(&mut buf).unwrap();
    assert_eq!(fin.header.flags, frame::FLAG_FIN);
    assert!(codec.decode(&mut buf).is_none());
    assert!(frame::read_event(&[0; 9]).is_none());
    let win = frame::new_window_update_event(3, 77);
    assert_eq!((win.header.len, win.body.len()), (77, 0));
    let mut cut = BytesMut::new();
    codec.encode(&frame::new_message_event(1, b"abc"), &mut cut);
    let mut part = BytesMut::from(&cut[..12]);
    assert!(codec.decode(&mut part).is_none());
    assert_eq!(part.len(), 12);
}

#[test]
fn manager_keeps_so_many_connections() {
    let mut m = SessionManager::new();
    assert_eq!(m.add_url("no address", 2), Err(ParseError));
    assert_eq!(m.add_url("tcp://h:1", 2), Ok(()));
    let plan = m.routine(&vec![]);
    assert_eq!(plan.len(), 1);
    assert_eq!(plan[0].1, 2);
    let url = plan[0].0.clone();
    m.add_connection(&url, 10);
    m.connect_fail(&url);
    assert_eq!(m.routine(&vec![])[0].1, 1);
    m.process_conn_events(&vec![10]);
    assert_eq!(m.routine(&vec![])[0].1, 1);
    assert_eq!(m.add_url("tcp://h:1", 5), Ok(()));
    assert_eq!(m.routine(&vec![])[0].1, 5);
}

#[test]
fn connection_knows_its_streams() {
    let mut c = CommonMuxConn::new();
    c.new_stream(1);
    c.new_stream(2);
    c.new_stream(1);
    assert!(!c.get_stream(1).unwrap().closed);
    c.close();
    assert!(c.get_stream(2).unwrap().closed);
    assert_eq!(c.close_stream(1, true).unwrap().header.flags(), FLAG_FIN);
    assert!(c.close_stream(1, true).is_none());
    assert!(c.close_stream(2, false).is_none());
    assert!(c.get_stream(2).is_none());
}

fn pool() -> MuxSessionManager {
    let mut m = MuxSessionManager::new();
    let urls = init_channel(
        &mut m,
        &ChannelServers {
            name: "ch".to_string(),
            urls: vec!["tcp://a:1".to_string(), "tcp://b:1".to_string()],
            conns_per_host: 1,
            max_alive_mins: 1,
            proxy: String::new(),
        },
    );
    assert_eq!(urls.len(), 2);
    m
}

#[test]
fn pool_opens_uses_and_retires_sessions() {
    let mut m = pool();
    assert_eq!(m.routine(&vec![], 0).connect.len(), 2);
    assert_eq!(m.select_session(&vec![]), None);
    assert!(!m.add_session("ch", "tcp://c:1", 9, 0));
    assert!(m.add_session("ch", "tcp://a:1", 1, 0));
    assert!(m.add_session("ch", "tcp://b:1", 2, 50));
    let picked = m.select_session_by_channel("ch", &vec![]).unwrap();
    let next = m.select_session_by_channel("ch", &vec![]).unwrap();
    assert_ne!(picked, next);
    assert_eq!(m.select_session(&vec![1]), Some(2));
    assert_eq!(m.select_session_by_channel("x", &vec![]), None);
    let r = m.routine(&vec![], 61);
    assert!(r.connect.is_empty());
    assert_eq!(r.ping, vec![1, 2]);
    assert_eq!(r.try_close, vec![1]);
    assert_eq!(m.routine(&vec![], 62).connect, vec![0]);
    assert!(may_close(0) && !may_close(1));
    assert_eq!(channel_url_key("a", "b"), "a#b");
    m.add_channel_url(
        "k".to_string(),
        ChannelState {
            channel: "k".to_string(),
            url: "u".to_string(),
            conns_per_host: 0,
            max_alive_mins: 0,
            proxy: String::new(),
            conns: 0,
        },
    );
}

#[test]
fn servers_are_reached_directly_or_through_a_proxy() {
    assert!(matches!(
        plan_connect("tcp://h:9", ""),
        Ok(ConnectPlan::Direct(a)) if a == "h:9"
    ));
    assert!(matches!(
        plan_connect("tcp://h", "p:3128"),
        Ok(ConnectPlan::Proxy { proxy, addr }) if proxy == "p:3128" && addr == "h:48100"
    ));
    assert!(matches!(plan_connect("x", ""), Err(AddressError::Invalid)));
    assert!(matches!(plan_connect("ftp://h", ""), Err(AddressError::Scheme)));
    assert!(plan_listen("tcp://0.0.0.0:9").is_ok());
    assert_eq!(
        credentials("tcp://h?key=K&method=M", "k", "m"),
        ("K".to_string(), "M".to_string())
    );
    assert_eq!(
        credentials("tcp://h", "k", "m"),
        ("k".to_string(), "m".to_string())
    );
}

#[test]
fn relays_shut_down_in_order() {
    assert!(matches!(relay_route(Some(4), "tcp"), RelayRoute::Session(4)));
    assert!(matches!(relay_route(None, "udp"), RelayRoute::Udp));
    assert!(matches!(relay_route(None, "tcp"), RelayRoute::Tcp));
    let mut r = Relay::new(false);
    assert!(matches!(r.step(RelayEvent::Started), RelayAction::Copy));
    assert!(matches!(r.step(RelayEvent::LocalEof), RelayAction::ShutdownRemote));
    assert!(!r.is_done());
    assert!(matches!(r.step(RelayEvent::RemoteEof), RelayAction::ShutdownLocal));
    assert!(r.is_done());
    let mut c = Relay::new(true);
    c.step(RelayEvent::Started);
    assert!(matches!(c.step(RelayEvent::RemoteEof), RelayAction::LeaveLocal));
}

#[test]
fn reads_time_out() {
    let mut timer = Delay::new(0);
    let mut t = TimeoutState::new();
    assert_eq!(t.timeout(), None);
    assert_eq!(t.check(&mut timer, 100), Ok(()));
    t.set_timeout(Some(10), &mut timer, 100);
    assert_eq!(t.timeout(), Some(10));
    assert_eq!(t.after_read(true, &mut timer, 100), Ok(()));
    assert_eq!(t.after_read(true, &mut timer, 109), Ok(()));
    assert_eq!(t.after_read(true, &mut timer, 110), Err(TimedOut));
    t.reset(&mut timer, 110);
    assert_eq!(t.after_read(false, &mut timer, 500), Ok(()));
    assert!(timer.is_up(u64::MAX));
}

#[test]
fn requests_are_framed_by_their_lengths() {
    let r = ConnectRequest {
        proto: "p".to_string(),
        addr: "ad".to_string(),
    };
    assert_eq!(
        r.to_bytes(),
        vec![1, 0, 0, 0, 0, 0, 0, 0, b'p', 2, 0, 0, 0, 0, 0, 0, 0, b'a', b'd']
    );
}
