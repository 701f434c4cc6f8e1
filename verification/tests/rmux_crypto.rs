use bytes::BytesMut;
use rsnova::rmux::crypto::{CryptoContext, METHOD_CHACHA20_POLY1305};
use rsnova::rmux::event::{new_data_event, new_fin_event, new_window_update_event, FLAG_DATA};
use std::str;

#[test]
fn crypto_test_crypto1() {
    let ev = new_fin_event(100, false);
    let mut encrypt_ctx = CryptoContext::new(
        METHOD_CHACHA20_POLY1305,
        "21321321321321312321321321212asdfasdasdas1",
        21321312,
    );
    let mut decrypt_ctx = encrypt_ctx.clone();
    let mut buf = BytesMut::new();
    encrypt_ctx.encrypt(&ev, &mut buf);
    println!("encoded buf len:{} {}", buf.capacity(), buf.len());

    let r = decrypt_ctx.decrypt(&mut buf).unwrap();
    assert_eq!(r.header.stream_id, 100);
    //assert_eq!(r.header.flags(), FLAG_FIN);
    assert_eq!(r.header.len(), 0);
    assert_eq!(buf.len(), 0);
}
#[test]
fn crypto_test_crypto2() {
    let s = "hello,world";
    let ev = new_data_event(100, s.as_bytes(), false);
    let mut ctx = CryptoContext::new(
        METHOD_CHACHA20_POLY1305,
        "21321321321321312321321321212asdfasdasdas1",
        21321312,
    );
    let mut buf = BytesMut::new();
    ctx.encrypt(&ev, &mut buf);
    println!(
        "encoded buf len:{} {} {} {}",
        buf.capacity(),
        buf.len(),
        ev.header.flag_len,
        ev.header.stream_id
    );

    let r = ctx.decrypt(&mut buf).unwrap();
    println!(
        "decode event len:{} {}",
        r.header.flag_len, r.header.stream_id
    );
    assert_eq!(r.header.stream_id, 100);
    assert_eq!(r.header.flags(), FLAG_DATA);
    assert_eq!(buf.len(), 0);
    assert_eq!(str::from_utf8(&r.body[..]).unwrap(), s);
}

#[test]
fn crypto_test_crypto3() {
    let ev = new_fin_event(100, false);
    let mut ctx = CryptoContext::new(
        "none",
        "21321321321321312321321321212asdfasdasdas1",
        21321312,
    );
    let mut buf = BytesMut::new();
    ctx.encrypt(&ev, &mut buf);
    println!("encoded buf len:{} {}", buf.capacity(), buf.len());

    let r = ctx.decrypt(&mut buf).unwrap();
    assert_eq!(r.header.stream_id, 100);
    //assert_eq!(r.header.flags(), FLAG_FIN);
    assert_eq!(r.header.len(), 0);
    assert_eq!(buf.len(), 0);
}
#[test]
fn crypto_test_crypto4() {
    let s = "hello,world";
    let ev = new_data_event(100, s.as_bytes(), false);
    let mut ctx = CryptoContext::new(
        "none",
        "21321321321321312321321321212asdfasdasdas1",
        21321312,
    );
    let mut buf = BytesMut::new();
    ctx.encrypt(&ev, &mut buf);
    println!(
        "encoded buf len:{} {} {} {}",
        buf.capacity(),
        buf.len(),
        ev.header.flag_len,
        ev.header.stream_id
    );

    let r = ctx.decrypt(&mut buf).unwrap();
    println!(
        "decode event len:{} {}",
        r.header.flag_len, r.header.stream_id
    );
    assert_eq!(r.header.stream_id, 100);
    assert_eq!(r.header.flags(), FLAG_DATA);
    assert_eq!(buf.len(), 0);
    assert_eq!(str::from_utf8(&r.body[..]).unwrap(), s);
}

#[test]
fn crypto_test_crypto5() {
    let s = "hello,world";
    let ev = new_data_event(100, s.as_bytes(), false);
    let mut ctx = CryptoContext::new(
        "aes128gcm",
        "21321321321321312321321321212asdfasdasdas1",
        21321312,
    );
    let mut buf = BytesMut::new();
    ctx.encrypt(&ev, &mut buf);
    println!(
        "encoded buf len:{} {} {} {}",
        buf.capacity(),
        buf.len(),
        ev.header.flag_len,
        ev.header.stream_id
    );

    let r = ctx.decrypt(&mut buf).unwrap();
    println!(
        "decode event len:{} {}",
        r.header.flag_len, r.header.stream_id
    );
    assert_eq!(r.header.stream_id, 100);
    assert_eq!(r.header.flags(), FLAG_DATA);
    assert_eq!(buf.len(), 0);
    assert_eq!(str::from_utf8(&r.body[..]).unwrap(), s);
}

#[test]
fn events_of_one_buffer_come_back_in_order() {
    for method in [METHOD_CHACHA20_POLY1305, "aes128gcm", "none"] {
        let mut tx = CryptoContext::new(method, "a key", 77);
        let mut rx = CryptoContext::new(method, "a key", 77);
        let sent = [
            new_data_event(1, b"first", false),
            new_fin_event(1, false),
            new_data_event(2, b"second", false),
            new_window_update_event(3, 4096, false),
            new_data_event(4, b"last", false),
        ];
        let mut buf = BytesMut::new();
        for ev in &sent {
            tx.encrypt(ev, &mut buf);
        }
        for ev in &sent {
            let got = rx.decrypt(&mut buf).unwrap();
            assert_eq!(got.header.flag_len, ev.header.flag_len);
            assert_eq!(got.header.stream_id, ev.header.stream_id);
            assert_eq!(got.body, ev.body);
            assert!(got.remote);
        }
        assert!(buf.is_empty());
        assert_eq!(rx.nonce, tx.nonce);
    }
}
