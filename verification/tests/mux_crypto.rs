use bytes::{Bytes, BytesMut};
use rsnova::mux::crypto::CryptoContext;
use rsnova::mux::event::{new_data_event, new_fin_event, FLAG_DATA};
use rsnova::rmux::crypto::METHOD_CHACHA20_POLY1305;
use std::str;

#[test]
fn test_crypto1() {
    let ev = new_fin_event(100);
    let mut ctx = CryptoContext::new(
        METHOD_CHACHA20_POLY1305,
        "21321321321321312321321321212asdfasdasdas1",
        21321312,
    );
    let mut buf = BytesMut::new();
    ctx.encrypt(&ev, &mut buf);
    println!("encoded buf len:{} {}", buf.capacity(), buf.len());

    let r = ctx.decrypt(&mut buf).unwrap();
    assert_eq!(r.header.stream_id, 100);
    //assert_eq!(r.header.flags(), FLAG_FIN);
    assert_eq!(r.header.len(), 0);
    assert_eq!(buf.len(), 0);
}
#[test]
fn test_crypto2() {
    let s = "hello,world";
    let ev = new_data_event(100, Bytes::from_static(s.as_bytes()));
    let mut ctx = CryptoContext::new(
        METHOD_CHACHA20_POLY1305,
        "21321321321321312321321321212asdfasdasdas1",
        21321312,
    );
    let mut buf = BytesMut::new();
    ctx.encrypt(&ev, &mut buf);
    println!(
        "encoded buf len:{} {} {} {}",
        buf.capacity(),
        buf.len(),
        ev.header.flag_len,
        ev.header.stream_id
    );

    let r = ctx.decrypt(&mut buf).unwrap();
    println!(
        "decode event len:{} {}",
        r.header.flag_len, r.header.stream_id
    );
    assert_eq!(r.header.stream_id, 100);
    assert_eq!(r.header.flags(), FLAG_DATA);
    assert_eq!(buf.len(), 0);
    assert_eq!(str::from_utf8(&r.body[..]).unwrap(), s);
}

#[test]
fn test_crypto3() {
    let ev = new_fin_event(100);
    let mut ctx = CryptoContext::new(
        "none",
        "21321321321321312321321321212asdfasdasdas1",
        21321312,
    );
    let mut buf = BytesMut::new();
    ctx.encrypt(&ev, &mut buf);
    println!("encoded buf len:{} {}", buf.capacity(), buf.len());

    let r = ctx.decrypt(&mut buf).unwrap();
    assert_eq!(r.header.stream_id, 100);
    //assert_eq!(r.header.flags(), FLAG_FIN);
    assert_eq!(r.header.len(), 0);
    assert_eq!(buf.len(), 0);
}
#[test]
fn test_crypto4() {
    let s = "hello,world";
    let ev = new_data_event(100, Bytes::from_static(s.as_bytes()));
    let mut ctx = CryptoContext::new(
        "none",
        "21321321321321312321321321212asdfasdasdas1",
        21321312,
    );
    let mut buf = BytesMut::new();
    ctx.encrypt(&ev, &mut buf);
    println!(
        "encoded buf len:{} {} {} {}",
        buf.capacity(),
        buf.len(),
        ev.header.flag_len,
        ev.header.stream_id
    );

    let r = ctx.decrypt(&mut buf).unwrap();
    println!(
        "decode event len:{} {}",
        r.header.flag_len, r.header.stream_id
    );
    assert_eq!(r.header.stream_id, 100);
    assert_eq!(r.header.flags(), FLAG_DATA);
    assert_eq!(buf.len(), 0);
    assert_eq!(str::from_utf8(&r.body[..]).unwrap(), s);
}

#[test]
fn test_crypto5() {
    let s = "hello,world";
    let ev = new_data_event(100, Bytes::from_static(s.as_bytes()));
    let mut ctx = CryptoContext::new(
        "aes128gcm",
        "21321321321321312321321321212asdfasdasdas1",
        21321312,
    );
    let mut buf = BytesMut::new();
    ctx.encrypt(&ev, &mut buf);
    println!(
        "encoded buf len:{} {} {} {}",
        buf.capacity(),
        buf.len(),
        ev.header.flag_len,
        ev.header.stream_id
    );

    let r = ctx.decrypt(&mut buf).unwrap();
    println!(
        "decode event len:{} {}",
        r.header.flag_len, r.header.stream_id
    );
    assert_eq!(r.header.stream_id, 100);
    assert_eq!(r.header.flags(), FLAG_DATA);
    assert_eq!(buf.len(), 0);
    assert_eq!(str::from_utf8(&r.body[..]).unwrap(), s);
}

#[test]
fn events_of_one_mux_buffer_come_back_in_order() {
    for method in [METHOD_CHACHA20_POLY1305, "aes128gcm", "none"] {
        let mut tx = CryptoContext::new(method, "a key", 5);
        let mut rx = CryptoContext::new(method, "a key", 5);
        let sent = [
            new_data_event(1, Bytes::from_static(b"first")),
            new_fin_event(1),
            new_data_event(2, Bytes::from_static(b"second")),
            new_data_event(3, Bytes::from_static(b"last")),
        ];
        let mut buf = BytesMut::new();
        for ev in &sent {
            tx.encrypt(ev, &mut buf);
        }
        for ev in &sent {
            let got = rx.decrypt(&mut buf).unwrap();
            assert_eq!(got.header.flag_len, ev.header.flag_len);
            assert_eq!(got.header.stream_id, ev.header.stream_id);
            assert_eq!(got.body, ev.body);
        }
        assert!(buf.is_empty());
    }
}
