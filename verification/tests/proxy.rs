use rsnova::common::http::{is_ok_response, is_ok_status, Header, HttpProxyReader, HttpRequest};
use rsnova::common::http::ReadStep as HttpStep;
use rsnova::common::io::{
    BufCopy, CopyStep, HostPort, PeekStep, PeekableReader, ReadStep, ReadUntilSeparator,
    SeparatorRead, WriteZero,
};
use rsnova::common::utils::{
    connect_granted, connect_request, get_available_udp_port, get_hostport, get_listen_addr,
};
use rsnova::proxy::http::{connect_answer, plan_normal, plan_relay, relays_unchanged, RelayError};
use rsnova::proxy::local::{detect_protocol, LocalContext, Protocol};
use rsnova::proxy::socks5::{connect_reply, name_port, SocksError, SocksState, SocksStep};
use rsnova::proxy::tls::{peek_sni, sni_record_len, tls_target, valid_tls_version, SniError};

fn request(headers: &[(&str, &str)]) -> HttpRequest {
    HttpRequest {
        method: Some("GET".to_string()),
        path: Some("/a".to_string()),
        version: Some(1),
        headers: headers
            .iter()
            .map(|(n, v)| Header {
                name: n.to_string(),
                value: bytes::Bytes::copy_from_slice(v.as_bytes()),
            })
            .collect(),
    }
}

#[test]
fn request_is_rendered() {
    let r = request(&[("Host", " x")]);
    assert_eq!(&r.to_bytes()[..], b"GET /a HTTP/1.1\r\nHost: x\r\n\r\n");
    let mut old = request(&[]);
    old.version = Some(0);
    assert_eq!(&old.to_bytes()[..], b"GET /a HTTP/1.0\r\n\r\n");
    assert_eq!(&HttpRequest::default().to_bytes()[..], b"\r\n\r\n");
}

#[test]
fn headers_are_found_and_removed_whatever_their_case() {
    let mut r = request(&[("Host", "one"), ("HOST", "two"), ("Accept", "b")]);
    assert_eq!(r.get_header("hOsT"), Some("one".to_string()));
    r.remove_header("host");
    assert_eq!(r.get_header("Host"), None);
    assert_eq!(r.headers.len(), 1);
    assert_eq!(r.get_header("accept"), Some("b".to_string()));
}

#[test]
fn header_values_are_read_as_text() {
    let mut r = request(&[]);
    r.headers.push(Header {
        name: "x".to_string(),
        value: bytes::Bytes::from_static(b"a\xffb"),
    });
    assert_eq!(r.get_header("X"), Some("a\u{fffd}b".to_string()));
}

#[test]
fn responses_are_judged_by_their_status() {
    assert!(is_ok_response(b"HTTP/1.1 200 OK\r\n\r\n"));
    assert!(is_ok_response(b"HTTP/1.1 299 Odd\r\n\r\n"));
    assert!(!is_ok_response(b"HTTP/1.1 300 Choices\r\n\r\n"));
    assert!(!is_ok_response(b"HTTP/1.1 200 OK\r\n"));
    assert!(!is_ok_response(b"junk\r\n\r\n"));
    assert!(is_ok_status(Some(299)) && !is_ok_status(Some(300)) && !is_ok_status(None));
    assert!(connect_granted(b"HTTP/1.1 200 OK\r\n\r\n"));
}

#[test]
fn proxy_request_is_rewritten() {
    let mut reader = HttpProxyReader::new();
    let head = b"GET http://example.com/path?q HTTP/1.1\r\nHost: example.com\r\nProxy-Connection: keep-alive\r\nProxy-Authorization: x\r\nAccept: */*\r\n\r\n";
    reader.add_recv_content(head);
    assert_eq!(reader.parse_request(), Ok(head.len()));
    assert_eq!(reader.get_remote_addr(), "example.com:80");
    assert_eq!(
        reader.read_ready(4096),
        b"GET /path?q HTTP/1.1\r\nHost:example.com\r\nAccept:*/*\r\n\r\n".to_vec()
    );
    assert!(reader.read_ready(4096).is_empty());
}

#[test]
fn partial_request_waits_and_bad_one_fails() {
    let mut reader = HttpProxyReader::new();
    reader.add_recv_content(b"GET / HT");
    assert_eq!(reader.parse_request(), Ok(0));
    let mut bad = HttpProxyReader::new();
    bad.add_recv_content(b"\x01\x02\r\n\r\n");
    assert!(bad.parse_request().is_err());
}

#[test]
fn body_of_known_length_is_passed_on() {
    let mut reader = HttpProxyReader::new();
    match reader.read_received(
        b"POST / HTTP/1.0\r\nContent-Length: 4\r\nHost: h:81\r\n\r\nab",
        1024,
    ) {
        HttpStep::Data(head) => assert_eq!(
            head,
            b"POST / HTTP/1.0\r\nContent-Length:4\r\nHost:h:81\r\n\r\n".to_vec()
        ),
        _ => panic!("the head is complete"),
    }
    assert_eq!(reader.get_remote_addr(), "h:81");
    assert_eq!(reader.read_ready(1), b"a".to_vec());
    assert_eq!(reader.read_ready(9), b"b".to_vec());
    reader.add_recv_content(b"cd");
    assert_eq!(reader.read_ready(9), b"cd".to_vec());
    reader.add_recv_content(b"GET / HTTP/1.1\r\n\r\n");
    assert!(reader.read_ready(9).is_empty());
}

#[test]
fn chunked_body_ends_with_its_last_chunk() {
    let mut reader = HttpProxyReader::new();
    reader.add_recv_content(b"POST / HTTP/1.1\r\nTransfer-Encoding: chunked\r\n\r\n1\r\nx\r\n");
    assert!(reader.parse_request().unwrap() > 0);
    assert!(!reader.read_ready(4096).is_empty());
    assert_eq!(reader.read_ready(4096), b"1\r\nx\r\n".to_vec());
    reader.add_recv_content(b"0\r\n\r\n");
    assert_eq!(reader.read_ready(4096), b"0\r\n\r\n".to_vec());
    reader.add_recv_content(b"next");
    assert!(reader.read_ready(4096).is_empty());
}

#[test]
fn received_head_may_be_incomplete_or_bad() {
    let mut reader = HttpProxyReader::new();
    assert!(matches!(
        reader.read_received(b"GET /", 10),
        HttpStep::Again
    ));
    let mut bad = HttpProxyReader::new();
    assert!(matches!(
        bad.read_received(b"\x00\x00\r\n\r\n", 10),
        HttpStep::Failed
    ));
}

#[test]
fn separator_splits_what_was_read() {
    let mut r = ReadUntilSeparator::new("\r\n\r\n");
    assert!(matches!(r.received(b"head\r\n"), SeparatorRead::Again));
    match r.received(b"\r\nbody") {
        SeparatorRead::Done(head, rest) => {
            assert_eq!(&head[..], b"head\r\n\r\n");
            assert_eq!(&rest[..], b"body");
        }
        _ => panic!("the separator is there"),
    }
    let mut end = ReadUntilSeparator::new("x");
    assert!(matches!(end.received(b""), SeparatorRead::ConnectionReset));
}

#[test]
fn peeked_bytes_are_read_again() {
    let mut r = PeekableReader::new();
    assert!(matches!(r.poll_peek(2), PeekStep::Read(_)));
    assert!(!r.read_ahead(b"abc"));
    match r.poll_peek(2) {
        PeekStep::Ready(b) => assert_eq!(b, b"ab".to_vec()),
        PeekStep::Read(_) => panic!("enough was read"),
    }
    match r.read(2) {
        ReadStep::Data(b) => assert_eq!(b, b"ab".to_vec()),
        ReadStep::PassThrough => panic!("something was read ahead"),
    }
    match r.read(9) {
        ReadStep::Data(b) => assert_eq!(b, b"c".to_vec()),
        ReadStep::PassThrough => panic!("something was read ahead"),
    }
    assert!(matches!(r.read(9), ReadStep::PassThrough));
    assert!(PeekableReader::new().read_ahead(b""));
}

#[test]
fn copying_counts_what_was_written() {
    let mut c = BufCopy::new();
    assert!(matches!(c.poll(), CopyStep::Read));
    c.filled(b"hello".to_vec());
    assert!(matches!(c.poll(), CopyStep::Write));
    assert_eq!(c.pending(), b"hello");
    assert_eq!(c.written(2), Ok(()));
    assert!(matches!(c.poll(), CopyStep::Write));
    assert_eq!(c.pending(), b"llo");
    assert_eq!(c.written(0), Err(WriteZero));
    assert_eq!(c.written(3), Ok(()));
    assert_eq!(c.amount(), 5);
    assert!(matches!(c.poll(), CopyStep::Read));
    c.filled(Vec::new());
    assert!(matches!(c.poll(), CopyStep::Flush));
}

#[test]
fn addresses_get_their_default_port() {
    assert_eq!(get_hostport("http://h/x"), Some("h:80".to_string()));
    assert_eq!(get_hostport("https://h"), Some("h:443".to_string()));
    assert_eq!(get_hostport("tcp://h"), Some("h:48100".to_string()));
    assert_eq!(get_hostport("tls://h"), Some("h:443".to_string()));
    assert_eq!(get_hostport("ws2://h"), Some("h:48100".to_string()));
    assert_eq!(get_hostport("tcp://h:9"), Some("h:9".to_string()));
    assert_eq!(get_hostport("mailto:x"), None);
    assert_eq!(get_hostport("no address"), None);
}

#[test]
fn listen_address_gets_a_host() {
    assert_eq!(get_listen_addr(":80"), "0.0.0.0:80");
    assert_eq!(get_listen_addr("1.2.3.4:80"), "1.2.3.4:80");
}

#[test]
fn first_free_port_is_taken() {
    assert_eq!(get_available_udp_port(|p| p > 2000), 2001);
    assert_eq!(get_available_udp_port(|_| true), 1025);
    assert_eq!(get_available_udp_port(|p| p == 65535), 0);
}

#[test]
fn connect_request_names_the_target_twice() {
    assert_eq!(
        connect_request("a:1"),
        b"CONNECT a:1 HTTP/1.1\r\nHost: a:1\r\nConnection: keep-alive\r\nProxy-Connection: keep-alive\r\n\r\n"
            .to_vec()
    );
}

/// Feeds the whole conversation, and gives the replies and the outcome.
fn converse(mut input: &[u8]) -> (Vec<Vec<u8>>, Result<HostPort, SocksError>) {
    let mut state = SocksState::NumMethods;
    let mut replies = Vec::new();
    loop {
        let n = state.read_len();
        let (b, rest) = input.split_at(n);
        input = rest;
        match state.step(b) {
            SocksStep::Next(s) => state = s,
            SocksStep::Reply(r, s) => {
                replies.push(r);
                state = s;
            }
            SocksStep::Connect(target) => return (replies, Ok(target)),
            SocksStep::Failed(e) => return (replies, Err(e)),
        }
    }
}

#[test]
fn socks_connect_to_v4() {
    let (replies, target) = converse(&[1, 0, 5, 1, 0, 1, 10, 0, 0, 7, 0x1f, 0x90]);
    assert_eq!(replies, vec![vec![5, 0]]);
    assert_eq!(connect_reply(true), vec![5, 0, 0, 1, 0, 0, 0, 0, 0, 0]);
    assert_eq!(connect_reply(false), vec![5, 1, 0, 1, 0, 0, 0, 0, 0, 0]);
    assert!(matches!(target, Ok(HostPort::V4Port([10, 0, 0, 7], 8080))));
}

#[test]
fn socks_connect_to_v6() {
    let mut input = vec![1, 0, 5, 1, 0, 4];
    input.extend_from_slice(&[0x20, 1, 0x0d, 0xb8, 0, 0, 0, 0, 0, 0, 0, 0, 0, 0, 0, 1, 0, 80]);
    let (_, target) = converse(&input);
    assert!(matches!(
        target,
        Ok(HostPort::V6Port([0x2001, 0xdb8, 0, 0, 0, 0, 0, 1], 80))
    ));
}

#[test]
fn socks_connect_to_domain() {
    let mut input = vec![2, 2, 0, 5, 1, 0, 3, 4];
    input.extend_from_slice(b"host");
    input.extend_from_slice(&[1, 187]);
    let (replies, target) = converse(&input);
    assert_eq!(replies.len(), 1);
    match target {
        Ok(HostPort::DomainPort(name, port)) => {
            assert_eq!(name, "host");
            assert_eq!(port, 443);
        }
        _ => panic!("a domain was asked for"),
    }
}

/// The destination that a name with port 80 stands for.
fn named(name: &str) -> HostPort {
    let mut b = name.as_bytes().to_vec();
    b.extend_from_slice(&[0, 80]);
    name_port(&b).unwrap()
}

#[test]
fn names_that_are_addresses_give_addresses() {
    assert!(matches!(named("127.0.0.1"), HostPort::V4Port([127, 0, 0, 1], 80)));
    assert!(matches!(named("255.10.0.9"), HostPort::V4Port([255, 10, 0, 9], 80)));
    assert!(matches!(named("::1"), HostPort::V6Port([0, 0, 0, 0, 0, 0, 0, 1], 80)));
    assert!(matches!(named("::"), HostPort::V6Port([0, 0, 0, 0, 0, 0, 0, 0], 80)));
    assert!(matches!(
        named("2001:DB8::a:ffff"),
        HostPort::V6Port([0x2001, 0xdb8, 0, 0, 0, 0, 0xa, 0xffff], 80)
    ));
    assert!(matches!(
        named("1:2:3:4:5:6:7:08"),
        HostPort::V6Port([1, 2, 3, 4, 5, 6, 7, 8], 80)
    ));
    assert!(matches!(
        named("::ffff:1.2.3.4"),
        HostPort::V6Port([0, 0, 0, 0, 0, 0xffff, 0x102, 0x304], 80)
    ));
    assert!(matches!(
        named("1:2:3:4:5:6:1.2.3.4"),
        HostPort::V6Port([1, 2, 3, 4, 5, 6, 0x102, 0x304], 80)
    ));
    assert!(matches!(
        named("1:2:3:4:5:6:7::"),
        HostPort::V6Port([1, 2, 3, 4, 5, 6, 7, 0], 80)
    ));
}

#[test]
fn names_that_are_no_addresses_stay_names() {
    for name in [
        "", "host", "1.2.3", "1.2.3.4.5", "256.0.0.1", "01.2.3.4", "+1.2.3.4", "1..2.3", "1.2.3.",
        ":", ":::", "1:2:3:4:5:6:7", "1:2:3:4:5:6:7:8:9", "1:2:3:4:5:6:7:8::", "1::2::3", "12345::",
        "g::", "1.2.3.4::", "1:2:3:4:5:6::1.2.3.4", "1:2:3:4:5:6:7:1.2.3.4", "[::1]", "fe80::1%1",
    ] {
        assert!(matches!(named(name), HostPort::DomainPort(n, 80) if n == name), "{}", name);
    }
}

#[test]
fn socks_refusals() {
    assert!(matches!(converse(&[1, 2]).1, Err(SocksError::NoMethod)));
    assert!(matches!(converse(&[1, 0, 4]).1, Err(SocksError::Version)));
    assert!(matches!(
        converse(&[1, 0, 5, 2]).1,
        Err(SocksError::Command)
    ));
    assert!(matches!(
        converse(&[1, 0, 5, 1, 0, 9]).1,
        Err(SocksError::AddressType(9))
    ));
    assert!(matches!(
        converse(&[1, 0, 5, 1, 0, 3, 1, 0xff, 0, 80]).1,
        Err(SocksError::HostName)
    ));
}

#[test]
fn protocols_are_told_by_three_bytes() {
    assert!(matches!(detect_protocol(&[5, 1, 0], false), Protocol::Socks5));
    assert!(matches!(detect_protocol(&[4, 1, 0], false), Protocol::Socks4));
    assert!(matches!(detect_protocol(&[0x16, 3, 1], false), Protocol::Tls));
    assert!(matches!(
        detect_protocol(b"GET", false),
        Protocol::Http { is_https: false }
    ));
    assert!(matches!(
        detect_protocol(b"CON", false),
        Protocol::Http { is_https: true }
    ));
    assert!(matches!(detect_protocol(b"xyz", true), Protocol::Origin));
    assert!(matches!(detect_protocol(b"xyz", false), Protocol::Unsupported));
}

#[test]
fn connect_is_answered_and_relayed() {
    let ctx = LocalContext {
        is_https: true,
        ..LocalContext::default()
    };
    let plan = plan_relay(&ctx, b"CONNECT h:443 HTTP/1.1\r\n\r\n".to_vec(), b"").unwrap();
    assert_eq!(plan.target, "h:443");
    assert!(plan.answers && plan.first.is_none());
    assert_eq!(
        connect_answer(true),
        b"HTTP/1.0 200 Connection established\r\n\r\n".to_vec()
    );
    assert_eq!(connect_answer(false), b"HTTP/1.0 502 Bad Gateway\r\n\r\n".to_vec());
    assert!(!relays_unchanged(&LocalContext::default()));
}

#[test]
fn plain_request_is_relayed_to_its_host() {
    let plan = plan_relay(
        &LocalContext::default(),
        b"GET http://h/ HTTP/1.1\r\nHost: h\r\n\r\n".to_vec(),
        b"rest",
    )
    .unwrap();
    assert_eq!(plan.target, "h:80");
    assert!(!plan.answers);
    assert!(plan.first.is_some());
}

#[test]
fn requests_without_a_target_are_refused() {
    let ctx = LocalContext::default();
    assert!(matches!(
        plan_relay(&ctx, b"GET / HT".to_vec(), b""),
        Err(RelayError::BadRequest)
    ));
    assert!(matches!(
        plan_relay(&ctx, b"\x00\x01\r\n\r\n".to_vec(), b""),
        Err(RelayError::BadRequest)
    ));
    assert!(matches!(
        plan_relay(&ctx, b"GET / HTTP/1.1\r\n\r\n".to_vec(), b""),
        Err(RelayError::NoTarget)
    ));
}

#[test]
fn normal_request_names_its_host() {
    let mut reader = HttpProxyReader::new();
    let host = plan_normal(&mut reader, b"GET http://h/ HTTP/1.1\r\nHost: h\r\n\r\n", b"").unwrap();
    assert_eq!(host, "h:80");
    assert_eq!(
        plan_normal(&mut HttpProxyReader::new(), b"GET / HT", b""),
        Err(RelayError::Partial)
    );
    assert_eq!(
        plan_normal(&mut HttpProxyReader::new(), b"\x00\r\n\r\n", b""),
        Err(RelayError::BadRequest)
    );
}

/// A record with a client hello that names the server.
fn hello(name: &str) -> Vec<u8> {
    let n = name.len();
    let mut ext = vec![0, 0];
    ext.extend_from_slice(&((n + 5) as u16).to_be_bytes());
    ext.extend_from_slice(&((n + 3) as u16).to_be_bytes());
    ext.push(0);
    ext.extend_from_slice(&(n as u16).to_be_bytes());
    ext.extend_from_slice(name.as_bytes());
    let mut body = vec![3, 3];
    body.extend_from_slice(&[7; 32]);
    body.push(0);
    body.extend_from_slice(&[0, 2, 0x13, 1]);
    body.extend_from_slice(&[1, 0]);
    body.extend_from_slice(&(ext.len() as u16).to_be_bytes());
    body.extend_from_slice(&ext);
    let mut hs = vec![1, 0];
    hs.extend_from_slice(&(body.len() as u16).to_be_bytes());
    hs.extend_from_slice(&body);
    let mut record = vec![0x16, 3, 1];
    record.extend_from_slice(&(hs.len() as u16).to_be_bytes());
    record.extend_from_slice(&hs);
    record
}

#[test]
fn server_name_is_read_off_a_client_hello() {
    let record = hello("example.com");
    let sni = peek_sni(&record).unwrap();
    assert_eq!(sni, "example.com");
    assert_eq!(tls_target(sni), "example.com:443");
    assert_eq!(sni_record_len(&record[..5]).unwrap(), record.len());
}

#[test]
fn broken_client_hellos_are_refused() {
    assert!(matches!(peek_sni(&[]), Err(_)));
    let mut no_hello = hello("a");
    no_hello[5] = 2;
    assert!(matches!(
        peek_sni(&no_hello),
        Err(SniError::NotClientHello)
    ));
    for cut in 0..hello("a").len() {
        assert!(peek_sni(&hello("a")[..cut]).is_err());
    }
    assert!(matches!(
        sni_record_len(&[0x16, 3, 1, 0, 46]),
        Err(SniError::NoSpace)
    ));
    assert_eq!(SniError::NoSpace.message(), "no sufficient space for sni");
}

#[test]
fn tls_versions() {
    assert!(valid_tls_version(&[0x16, 3, 1]));
    assert!(!valid_tls_version(&[0x16, 2, 1]));
}
