use bytes::{Bytes, BytesMut};
use rsnova::mux::crypto::{plan_read, CryptoContext, ReadPlan};
use rsnova::mux::event::{
    decode_header, encode_event, get_flag_len, new_auth_ack_event, new_auth_event, new_data_event,
    new_empty_event, new_nonce_ping_event, new_open_stream_event, new_reverse_open_stream_event,
    new_window_update_event, read_event, AuthAck, AuthRequest, Header, OpenStreamEvent, ReadError,
    RegisterAck, RegisterRequest, TunnelEntry, TunnelResult, FLAG_AUTH, FLAG_AUTH_ACK, FLAG_DATA,
    FLAG_OPEN, FLAG_REVERSE_OPEN, MAX_EVENT_BODY_LEN,
};
use rsnova::parts::{lines, split, trim, words, Separator};
use rsnova::text::{
    chars_of, contains_char, contains_text, decimal, find_text, parse_number, replace_all,
    same_text, starts_with, text_between,
};

#[test]
fn headers_are_packed() {
    assert_eq!(get_flag_len(0x123456, 7), 0x12345607);
    let mut h = Header {
        flag_len: get_flag_len(5, FLAG_DATA),
        stream_id: 9,
    };
    assert_eq!((h.len(), h.flags()), (5, FLAG_DATA));
    h.set_len(6);
    h.set_flag(2);
    assert_eq!((h.len(), h.flags(), h.stream_id), (6, 2, 9));
    assert!(new_empty_event().is_empty());
}

#[test]
fn written_events_are_read_back() {
    let ev = new_data_event(9, Bytes::from_static(b"abc"));
    let mut wire = encode_event(&ev);
    assert_eq!(wire, vec![3, 3, 0, 0, 9, 0, 0, 0, b'a', b'b', b'c']);
    wire.push(99);
    let (back, n) = read_event(&wire).unwrap();
    assert_eq!((n, &back.body[..]), (11, &b"abc"[..]));
    assert!(matches!(read_event(&wire[..7]), Err(ReadError::UnexpectedEof)));
    assert!(matches!(read_event(&wire[..10]), Err(ReadError::UnexpectedEof)));
    let mut big = get_flag_len(MAX_EVENT_BODY_LEN + 1, FLAG_DATA).to_le_bytes().to_vec();
    big.extend_from_slice(&[0; 4]);
    assert!(matches!(decode_header(&big), Err(ReadError::TooLarge(n)) if n == MAX_EVENT_BODY_LEN + 1));
    assert_eq!(&new_nonce_ping_event(258).body[..], &[2, 1, 0, 0]);
    assert_eq!(&new_window_update_event(1, 1).body[..], &[1, 0, 0, 0]);
}

#[test]
fn requests_travel_as_bodies() {
    let open = OpenStreamEvent {
        proto: "tcp".to_string(),
        addr: "a:1".to_string(),
    };
    let ev = new_open_stream_event(4, &open).unwrap();
    assert_eq!(ev.header.flags(), FLAG_OPEN);
    assert_eq!(&ev.body[..], b"\x03tcp\x03a:1");
    let rev = new_reverse_open_stream_event(4, &open).unwrap();
    assert_eq!(rev.header.flags(), FLAG_REVERSE_OPEN);
    assert_eq!(rev.body, ev.body);

    let proxy = new_auth_event(0, &AuthRequest::Proxy).unwrap();
    assert_eq!((proxy.header.flags(), &proxy.body[..]), (FLAG_AUTH, &[0u8][..]));
    let reg = new_auth_event(
        0,
        &AuthRequest::Register(RegisterRequest {
            client_id: "me".to_string(),
            tunnels: vec![TunnelEntry {
                local_addr: "h:1".to_string(),
                remote_port: 80,
                sni: Some("s".to_string()),
            }],
        }),
    )
    .unwrap();
    assert_eq!(&reg.body[..], b"\x01\x02me\x01\x03h:1\x50\x01\x01s");
    let ack = new_auth_ack_event(0, &AuthAck::Proxy).unwrap();
    assert_eq!((ack.header.flags(), &ack.body[..]), (FLAG_AUTH_ACK, &[0u8][..]));
    let full = new_auth_ack_event(
        0,
        &AuthAck::RegisterAck(RegisterAck {
            results: vec![TunnelResult {
                success: true,
                remote_port: 80,
                sni: None,
                error: Some("e".to_string()),
            }],
        }),
    )
    .unwrap();
    assert_eq!(&full.body[..], b"\x01\x01\x01\x50\x00\x01\x01e");
}

#[test]
fn encrypted_reads_are_planned() {
    let mut a = CryptoContext::new("chacha20poly1305", "key", 3);
    let mut b = CryptoContext::new("chacha20poly1305", "key", 3);
    let mut wire = BytesMut::new();
    a.encrypt(&new_data_event(1, Bytes::from_static(b"payload")), &mut wire);
    let mut part = BytesMut::from(&wire[..4]);
    assert!(matches!(plan_read(&mut b, &mut part), ReadPlan::Read(n) if n > 0));
    match plan_read(&mut b, &mut wire) {
        ReadPlan::Done(ev) => assert_eq!(&ev.body[..], b"payload"),
        _ => panic!("the event is complete"),
    }
    let mut again = BytesMut::new();
    a.encrypt(&new_data_event(1, Bytes::from_static(b"payload")), &mut again);
    let last = again.len() - 1;
    again[last] ^= 1;
    assert!(matches!(plan_read(&mut b, &mut again), ReadPlan::Denied));
    a.reset(7);
    assert_eq!((a.encrypt_nonce, a.decrypt_nonce), (7, 7));
}

#[test]
fn texts_are_taken_apart() {
    let own = |v: &[&str]| v.iter().map(|s| s.to_string()).collect::<Vec<_>>();
    assert_eq!(split("a,b,,c", Separator::Char(',')), own(&["a", "b", "", "c"]));
    assert_eq!(split("", Separator::Char(',')), own(&[""]));
    assert_eq!(words("  GET  /x\tHTTP/1.1 "), own(&["GET", "/x", "HTTP/1.1"]));
    assert_eq!(lines("a\r\nb\n\nc\n"), own(&["a", "b", "", "c"]));
    assert_eq!(trim(" \t x y \r\n"), "x y");
    assert_eq!(trim("\u{3000}x\u{a0}"), "x");
}

#[test]
fn numbers_and_texts() {
    assert_eq!(decimal(0), "0");
    assert_eq!(decimal(u64::MAX), "18446744073709551615");
    assert_eq!(parse_number("18446744073709551615", u64::MAX), Some(u64::MAX));
    assert_eq!(parse_number("18446744073709551616", u64::MAX), None);
    assert_eq!(parse_number("+5", 9), Some(5));
    assert_eq!(parse_number("", 9), None);
    assert_eq!(parse_number("+", 9), None);
    assert_eq!(parse_number("1a", 9), None);
    assert!(same_text("a", "a") && !same_text("a", "b"));
    assert!(contains_char("abc", 'b') && contains_text("abc", "bc") && starts_with("abc", "ab"));
    let v = chars_of("hello");
    assert_eq!(find_text(&v, &chars_of("l"), 3), Some(3));
    assert_eq!(find_text(&v, &chars_of("x"), 0), None);
    assert_eq!(text_between(&v, 1, 3), "el");
    assert_eq!(replace_all("aXbXX", "X", "--"), "a--b----");
}
