use bytes::BytesMut;
use rsnova::channel::{
    answer_login, answer_login_with, channel_route, finish_login, plan_sessions, routine_due,
    routine_due_now, sessions_to_open, start_login, LoginError, Route,
};
use rsnova::config::{BadPattern, ChannelConfig, CipherConfig, PACConfig, TunnelConfig};
use rsnova::rmux::channel::{
    create_stream, erase_mux_session, get_channel_session_size, pong_received,
    report_update_window, routine_all_sessions, store_mux_session, take_pendding_mux_streams,
    ChannelSessionManager, MuxSession, MuxSessionState,
};
use rsnova::rmux::crypto::{
    encrypted_event, parse_method, poll_event, CryptoContext, EventPoll,
};
use rsnova::rmux::event::{
    get_event_type_str, new_auth_event, new_data_event, new_empty_event, new_fin_event,
    new_ping_event, new_pong_event, new_routine_event, new_shutdown_event, new_syn_event,
    new_window_update_event, FLAG_AUTH, FLAG_DATA, FLAG_FIN, FLAG_PING, FLAG_PONG, FLAG_ROUTINE,
    FLAG_SHUTDOWN, FLAG_SYN, FLAG_WIN_UPDATE,
};
use rsnova::rmux::message::{AuthRequest, AuthResponse, ConnectRequest};
use rsnova::rmux::session::{PendingStream, SessionAction, SessionLoop};
use rsnova::rmux::stream::{Inbound, MuxStream, ReadOutcome, SendPoll, WriteStep};

fn target(addr: &str) -> ConnectRequest {
    ConnectRequest {
        proto: "tcp".to_string(),
        addr: addr.to_string(),
    }
}

fn plain_loop() -> SessionLoop {
    SessionLoop::new("ch", 7, CryptoContext::new("none", "k", 0), 1024)
}

#[test]
fn events_carry_their_flags() {
    let all = [
        (new_empty_event(false), 0u8, "INVALID"),
        (new_syn_event(1, b"x"), FLAG_SYN, "FLAG_SYN"),
        (new_fin_event(1, false), FLAG_FIN, "FLAG_FIN"),
        (new_data_event(1, b"x", false), FLAG_DATA, "FLAG_DATA"),
        (new_ping_event(1, false), FLAG_PING, "FLAG_PING"),
        (new_pong_event(1, false), FLAG_PONG, "FLAG_PONG"),
        (new_auth_event(1, b"x"), FLAG_AUTH, "FLAG_AUTH"),
        (new_shutdown_event(1, false), FLAG_SHUTDOWN, "FLAG_SHUTDOWN"),
        (new_routine_event(1), FLAG_ROUTINE, "INVALID"),
        (new_window_update_event(1, 9, false), FLAG_WIN_UPDATE, "FLAG_WIN_UPDATE"),
    ];
    for (ev, flag, name) in all {
        assert_eq!(ev.header.flags(), flag);
        assert_eq!(get_event_type_str(flag), name);
        assert_eq!(ev.is_empty(), flag == 0);
    }
    let win = new_window_update_event(3, 65536, true);
    assert_eq!(win.header.len(), 65536);
    assert!(win.body.is_empty() && win.remote);
}

#[test]
fn messages_read_back() {
    let c = target("example.com:80");
    let bytes = c.to_bytes();
    assert_eq!(&bytes[..11], &[3, 0, 0, 0, 0, 0, 0, 0, b't', b'c', b'p']);
    let back = ConnectRequest::from_bytes(&bytes).unwrap();
    assert_eq!((back.proto, back.addr), (c.proto, c.addr));
    assert!(ConnectRequest::from_bytes(&bytes[..bytes.len() - 1]).is_none());
    assert!(ConnectRequest::from_bytes(&[2, 0, 0, 0, 0, 0, 0, 0, 0xff, 0xfe]).is_none());

    let req = AuthRequest {
        method: "none".to_string(),
    };
    assert_eq!(
        AuthRequest::from_bytes(&req.to_bytes()).unwrap().method,
        "none"
    );
    let res = AuthResponse {
        success: true,
        err: "e".to_string(),
        rand: 0x0102030405060708,
        method: "m".to_string(),
    };
    let back = AuthResponse::from_bytes(&res.to_bytes()).unwrap();
    assert!(back.success);
    assert_eq!((back.err.as_str(), back.rand, back.method.as_str()), ("e", res.rand, "m"));
    assert!(AuthResponse::from_bytes(&[2]).is_none());
}

#[test]
fn stream_reports_what_was_read() {
    let mut s = MuxStream::new("ch", 1, 3, target("a:1"), 1024);
    assert!(s.wants_inbound());
    let step = s.poll_read(Inbound::Data(vec![7; 10]), 4);
    assert!(matches!(step.outcome, ReadOutcome::Data(d) if d == vec![7; 4]));
    assert_eq!(step.report, None);
    assert!(!s.wants_inbound());
    let step = s.poll_read(Inbound::Pending, 100);
    assert!(matches!(step.outcome, ReadOutcome::Data(d) if d == vec![7; 6]));
    let step = s.poll_read(Inbound::Data(vec![1; 32768]), 40000);
    assert_eq!(step.report, Some(32778));
    s.window_reported(32778);
    let step = s.poll_read(Inbound::Data(vec![1; 5]), 40000);
    assert_eq!(step.report, None);
    assert!(matches!(s.poll_read(Inbound::Pending, 1).outcome, ReadOutcome::Pending));
    assert!(matches!(s.poll_read(Inbound::Data(vec![]), 1).outcome, ReadOutcome::End));
}

#[test]
fn stream_window_may_be_overdrawn_once() {
    let mut s = MuxStream::new("ch", 1, 3, target("a:1"), 1024);
    match s.poll_write(&[1; 5000], SendPoll::Ready) {
        WriteStep::Sent(ev) => {
            assert_eq!(ev.header.flags(), FLAG_DATA);
            assert_eq!(ev.header.stream_id, 3);
            assert_eq!(ev.body.len(), 5000);
        }
        _ => panic!("the window is open"),
    }
    assert_eq!(s.state.send_buf_window, 4 * 1024 - 5000);
    assert!(matches!(s.poll_write(&[1], SendPoll::Ready), WriteStep::Pending));
    assert!(s.update_send_window(5000));
    assert!(matches!(s.poll_write(&[1], SendPoll::Pending), WriteStep::Pending));
    assert!(matches!(s.poll_write(&[1], SendPoll::Failed), WriteStep::Failed { .. }));
    assert_eq!(
        s.stat_info("1s"),
        "3:target:a:1, age:1s, send_bytes:5000, recv_bytes:0, send_window:4096, closed:false\n"
    );
}

#[test]
fn closed_stream_takes_no_data() {
    let mut s = MuxStream::new("ch", 1, 3, target("a:1"), 1024);
    assert_eq!(s.offer_data(vec![1]), Some(vec![1]));
    let step = s.close();
    assert_eq!(step.fin.header.flags(), FLAG_FIN);
    assert!(!step.wake);
    assert!(s.is_closed());
    assert_eq!(s.offer_data(vec![1]), None);
    assert_eq!((s.id(), s.relay_buf_size()), (3, 1024));
}

#[test]
fn peer_opens_and_closes_a_stream() {
    let mut l = plain_loop();
    let mut syn = new_syn_event(2, &target("a:1").to_bytes());
    syn.remote = true;
    match l.handle_event(syn.clone(), vec![]).action {
        SessionAction::Serve { stream_id, target, known } => {
            assert_eq!((stream_id, target.addr.as_str(), known), (2, "a:1", false));
        }
        _ => panic!("a stream is opened"),
    }
    assert!(matches!(
        l.handle_event(syn, vec![]).action,
        SessionAction::Serve { known: true, .. }
    ));
    match l.handle_event(new_data_event(2, b"hi", true), vec![]).action {
        SessionAction::Deliver { stream_id, data } => assert_eq!((stream_id, data), (2, b"hi".to_vec())),
        _ => panic!("data is delivered"),
    }
    let step = l.handle_event(new_fin_event(2, true), vec![]);
    assert!(step.closed.is_some());
    assert!(matches!(step.action, SessionAction::Nothing));
    assert!(matches!(
        l.handle_event(new_data_event(2, b"hi", true), vec![]).action,
        SessionAction::Nothing
    ));
}

#[test]
fn ping_of_the_peer_is_answered() {
    let mut l = plain_loop();
    match l.handle_event(new_ping_event(5, true), vec![]).action {
        SessionAction::Send(bytes) => {
            let mut ctx = CryptoContext::new("none", "k", 0);
            let mut bytes = bytes;
            let ev = ctx.decrypt(&mut bytes).unwrap();
            assert_eq!((ev.header.flags(), ev.header.stream_id), (FLAG_PONG, 5));
        }
        _ => panic!("a ping is answered"),
    }
    assert!(matches!(
        l.handle_event(new_pong_event(0, true), vec![]).action,
        SessionAction::Pong
    ));
}

#[test]
fn window_update_wakes_a_parked_writer() {
    let mut l = plain_loop();
    let ev = new_syn_event(1, b"");
    assert!(SessionLoop::wants_pending(&ev));
    let step = l.handle_event(
        ev,
        vec![PendingStream {
            id: 1,
            target: target("a:1"),
        }],
    );
    assert!(matches!(step.action, SessionAction::Send(_)));
    let mut s = l.take_stream(1).unwrap();
    assert!(matches!(s.poll_write(&[0; 5000], SendPoll::Ready), WriteStep::Sent(_)));
    assert!(matches!(s.poll_write(&[0; 1], SendPoll::Ready), WriteStep::Pending));
    l.put_stream(1, s);
    assert!(matches!(
        l.handle_event(new_window_update_event(1, 9000, true), vec![]).action,
        SessionAction::Wake(1)
    ));
    assert!(l.take_stream(9).is_none());
}

#[test]
fn retired_session_stops_with_its_last_stream() {
    let mut l = plain_loop();
    let mut syn = new_syn_event(2, &target("a:1").to_bytes());
    syn.remote = true;
    l.handle_event(syn, vec![]);
    l.retire();
    assert!(matches!(
        l.handle_event(new_fin_event(2, false), vec![]).action,
        SessionAction::Stop
    ));
    let mut other = plain_loop();
    assert!(matches!(
        other.handle_event(new_shutdown_event(0, false), vec![]).action,
        SessionAction::Stop
    ));
    assert!(matches!(
        other.handle_event(new_shutdown_event(0, true), vec![]).action,
        SessionAction::Nothing
    ));
}

#[test]
fn stored_sessions_are_found_and_erased() {
    let mut all = ChannelSessionManager::new();
    assert_eq!(get_channel_session_size(&all, "ch"), 0);
    assert!(create_stream(&mut all, "ch", "tcp", "a:1").is_none());
    store_mux_session(&mut all, "ch", 4, MuxSession::new("ch", 4, 0, 100));
    assert_eq!(get_channel_session_size(&all, "ch"), 1);
    let (session, stream, ev) = create_stream(&mut all, "ch", "tcp", "a:1").unwrap();
    assert_eq!((session, stream, ev.header.flags()), (4, 1, FLAG_SYN));
    let again = create_stream(&mut all, "ch", "tcp", "b:1").unwrap();
    assert_eq!(again.1, 3);
    let pending = take_pendding_mux_streams(&mut all, "ch", 4);
    assert_eq!(pending.len(), 2);
    let (ok, ev) = report_update_window(&all, "ch", 4, 1, 33000, SendPoll::Ready);
    assert!(ok);
    assert_eq!(ev.unwrap().header.len(), 33000);
    assert!(!report_update_window(&all, "ch", 4, 1, 33000, SendPoll::Pending).0);
    erase_mux_session(&mut all, "ch", 4);
    assert_eq!(get_channel_session_size(&all, "ch"), 0);
    assert!(create_stream(&mut all, "ch", "tcp", "a:1").is_none());
}

#[test]
fn sessions_are_counted_for_each_channel() {
    let mut all = ChannelSessionManager::new();
    for sid in [4u32, 5, 6] {
        store_mux_session(&mut all, "a", sid, MuxSession::new("a", sid, 0, 100));
    }
    store_mux_session(&mut all, "b", 7, MuxSession::new("b", 7, 0, 100));
    erase_mux_session(&mut all, "a", 5);
    erase_mux_session(&mut all, "a", 7);
    erase_mux_session(&mut all, "a", 5);
    erase_mux_session(&mut all, "c", 4);
    assert_eq!(get_channel_session_size(&all, "a"), 2);
    assert_eq!(get_channel_session_size(&all, "b"), 1);
    assert_eq!(get_channel_session_size(&all, "c"), 0);
    store_mux_session(&mut all, "a", 5, MuxSession::new("a", 5, 0, 100));
    erase_mux_session(&mut all, "b", 7);
    assert_eq!(get_channel_session_size(&all, "a"), 3);
    assert_eq!(get_channel_session_size(&all, "b"), 0);
}

#[test]
fn silent_session_is_shut_down_and_old_one_retired() {
    let mut s = MuxSession::new("ch", 1, 1000, 0);
    let (ev, retired) = s.routine(50, 940, 0);
    assert_eq!((ev.header.flags(), retired), (FLAG_PING, false));
    let (ev, retired) = s.routine(61, 2000, 0);
    assert_eq!((ev.header.flags(), retired), (FLAG_PING, true));
    let mut all = ChannelSessionManager::new();
    store_mux_session(&mut all, "ch", 1, MuxSession::new("ch", 1, 0, 0));
    pong_received(&mut all, "ch", 1, 1);
    assert_eq!(routine_all_sessions(&mut all, 62, 62)[0].ev.header.flags(), FLAG_PING);
    assert_eq!(routine_all_sessions(&mut all, 63, 63)[0].ev.header.flags(), FLAG_SHUTDOWN);

    let state = MuxSessionState {
        last_ping_send_time: 100,
        last_pong_recv_time: 30,
        born_time: 0,
        retired: false,
    };
    assert_eq!(state.ping_pong_gap(), -70);
    assert!(!state.is_retired());
}

#[test]
fn retired_session_gets_no_stream() {
    let mut all = ChannelSessionManager::new();
    store_mux_session(&mut all, "ch", 1, MuxSession::new("ch", 1, 1000, 0));
    let actions = routine_all_sessions(&mut all, 940, 940);
    assert_eq!((actions[0].ev.header.flags(), actions[0].retired), (FLAG_PING, false));
    assert!(create_stream(&mut all, "ch", "tcp", "a:1").is_some());
    let actions = routine_all_sessions(&mut all, 1060, 1060);
    assert_eq!((actions[0].ev.header.flags(), actions[0].retired), (FLAG_PING, true));
    assert!(create_stream(&mut all, "ch", "tcp", "a:1").is_none());
    assert!(routine_all_sessions(&mut all, 1090, 1090).is_empty());
}

#[test]
fn late_answer_of_a_retired_session_leaves_its_successor_alone() {
    let mut all = ChannelSessionManager::new();
    store_mux_session(&mut all, "ch", 1, MuxSession::new("ch", 1, 60, 0));
    assert!(routine_all_sessions(&mut all, 200, 200)[0].retired);
    store_mux_session(&mut all, "ch", 2, MuxSession::new("ch", 2, 0, 200));
    pong_received(&mut all, "ch", 2, 201);
    pong_received(&mut all, "ch", 1, 300);
    assert_eq!(routine_all_sessions(&mut all, 290, 290)[0].ev.header.flags(), FLAG_PING);
    let actions = routine_all_sessions(&mut all, 320, 320);
    assert_eq!((actions[0].session_id, actions[0].ev.header.flags()), (2, FLAG_SHUTDOWN));
}

#[test]
fn routine_pings_every_session() {
    let mut all = ChannelSessionManager::new();
    store_mux_session(&mut all, "a", 1, MuxSession::new("a", 1, 0, 0));
    store_mux_session(&mut all, "b", 2, MuxSession::new("b", 2, 0, 0));
    let actions = routine_all_sessions(&mut all, 100, 100);
    assert_eq!(actions.len(), 2);
    assert!(actions.iter().all(|a| a.ev.header.flags() == FLAG_PING && !a.retired));
    pong_received(&mut all, "a", 1, 100);
    pong_received(&mut all, "b", 2, 20);
    let actions = routine_all_sessions(&mut all, 161, 161);
    for a in &actions {
        let expected = if a.channel == "a" { FLAG_PING } else { FLAG_SHUTDOWN };
        assert_eq!(a.ev.header.flags(), expected);
    }
}

fn cipher() -> CipherConfig {
    CipherConfig {
        key: "k".to_string(),
        method: "none".to_string(),
    }
}

fn channel(name: &str, conns: u32, hours: Option<[u8; 2]>) -> ChannelConfig {
    ChannelConfig {
        name: name.to_string(),
        url: "rmux://h:1".to_string(),
        cipher: cipher(),
        ping_interval_sec: 30,
        conns_per_host: conns,
        max_alive_mins: 2,
        proxy: None,
        work_time_frame: hours,
        sni: None,
        sni_proxy: None,
    }
}

#[test]
fn channels_open_sessions_in_their_hours() {
    let all = ChannelSessionManager::new();
    let c = channel("ch", 2, Some([8, 20]));
    assert!(c.is_valid_hour(8) && !c.is_valid_hour(7));
    assert_eq!(c.max_alive_secs(), 120);
    assert_eq!(sessions_to_open(&c, 9, &all), 2);
    assert_eq!(sessions_to_open(&c, 3, &all), 0);
    let mut seed = 10;
    let plan = plan_sessions(&vec![c, channel("x", 1, None)], 9, &all, &mut seed);
    assert_eq!(plan, vec![(0, 10), (0, 11), (1, 12)]);
    assert_eq!(seed, 13);
    assert!(matches!(channel_route("direct"), Route::Direct));
    assert!(matches!(channel_route("ch"), Route::Channel));
}

#[test]
fn routine_is_due_after_half_a_minute_or_so() {
    assert!(!routine_due(100, 100, 0));
    assert!(routine_due(200, 100, 0));
    assert!(!routine_due_now(100, 100));
    assert!(routine_due_now(200, 100));
}

#[test]
fn login_gives_both_sides_the_same_keys() {
    let (mut sent, mut ctx) = start_login("chacha20poly1305", "secret");
    let mut server = CryptoContext::new("chacha20poly1305", "secret", 0);
    let asked = server.decrypt(&mut sent).unwrap();
    assert_eq!(asked.header.flags(), FLAG_AUTH);
    let (answer, res) = answer_login(&asked.body).unwrap();
    assert!(res.success);
    assert_eq!(res.method, "chacha20poly1305");
    let mut wire = encrypted_event(&mut server, &answer);
    let got = match poll_event(&mut ctx, &mut wire) {
        EventPoll::Ready(ev) => ev,
        _ => panic!("the answer is complete"),
    };
    let (_read, mut write) = finish_login(Some(got), "chacha20poly1305", "secret").unwrap();
    let mut peer = CryptoContext::new("chacha20poly1305", "secret", res.rand);
    let mut data = encrypted_event(&mut write, &new_data_event(1, b"payload", false));
    let ev = peer.decrypt(&mut data).unwrap();
    assert_eq!(ev.body, b"payload".to_vec());
}

#[test]
fn refused_logins() {
    assert!(matches!(
        finish_login(None, "none", "k"),
        Err(LoginError::NoAnswer)
    ));
    assert!(matches!(
        finish_login(Some(new_auth_event(0, b"?")), "none", "k"),
        Err(LoginError::BadAnswer)
    ));
    let no = AuthResponse {
        success: false,
        err: String::new(),
        rand: 1,
        method: "none".to_string(),
    };
    assert!(matches!(
        finish_login(Some(new_auth_event(0, &no.to_bytes())), "none", "k"),
        Err(LoginError::Refused)
    ));
    assert!(answer_login(b"?").is_err());
    let (_, res) = answer_login_with(
        &AuthRequest {
            method: "none".to_string(),
        }
        .to_bytes(),
        77,
    )
    .unwrap();
    assert_eq!(res.rand, 77);
}

#[test]
fn incomplete_events_ask_for_more() {
    let mut ctx = CryptoContext::new("none", "k", 0);
    let mut empty = BytesMut::new();
    assert!(matches!(
        poll_event(&mut ctx, &mut empty),
        EventPoll::NeedMore(4096)
    ));
    assert!(parse_method("rot13").is_none());
    assert!(matches!(parse_method("none"), Some(None)));
}

#[test]
fn tampered_event_is_refused() {
    let mut a = CryptoContext::new("aes128gcm", "key", 5);
    let mut b = CryptoContext::new("aes128gcm", "key", 5);
    let mut wire = encrypted_event(&mut a, &new_data_event(1, b"payload", false));
    let last = wire.len() - 1;
    wire[last] ^= 1;
    assert!(matches!(poll_event(&mut b, &mut wire), EventPoll::Failed(_)));
}

#[test]
fn patterns_match_hosts() {
    let mut p = PACConfig {
        host: "^.*\\.example\\.com$".to_string(),
        channel: "ch".to_string(),
        re: None,
    };
    assert!(p.init().is_ok());
    assert!(p.is_match("www.example.com"));
    assert!(!p.is_match("example.org"));
    p.host = "example".to_string();
    assert!(p.init().is_ok());
    assert!(!p.is_match("example.org"));
    assert!(p.clone().is_match("a.example.com"));
    let mut bad = PACConfig {
        host: "(".to_string(),
        channel: "ch".to_string(),
        re: None,
    };
    assert!(matches!(bad.init(), Err(BadPattern)));
}

#[test]
fn the_first_rule_that_matches_decides() {
    let mut tunnel = TunnelConfig {
        listen: String::new(),
        cipher: None,
        pac: Vec::new(),
    };
    assert_eq!(tunnel.rule_for("a.example.com:443"), None);
    for host in ["^b", "example", ".*"] {
        tunnel.pac.push(PACConfig {
            host: host.to_string(),
            channel: host.to_string(),
            re: None,
        });
    }
    assert_eq!(tunnel.rule_for("a.example.com:443"), None);
    for rule in &mut tunnel.pac {
        assert!(rule.init().is_ok());
    }
    assert_eq!(tunnel.rule_for("a.example.com:443"), Some(1));
    assert_eq!(tunnel.rule_for("b.example.com:443"), Some(0));
    assert_eq!(tunnel.rule_for("c:1"), Some(2));
}

#[test]
fn numbers_of_a_session_run_out() {
    let last = CryptoContext::new("aes128gcm", "k", u64::MAX);
    assert!(!last.can_encrypt() && !last.can_decrypt());
    let first = CryptoContext::new("aes128gcm", "k", 0);
    assert!(first.can_encrypt() && first.can_decrypt());
    assert!(CryptoContext::new("none", "k", u64::MAX).can_encrypt());
    assert!(plain_loop().can_send());
    assert!(!SessionLoop::new("ch", 7, last, 1024).can_send());
}
