//! Keys, timestamps, and the query byte codec.

use surreal_core::err::Error;
use surreal_core::key::{prefix, suffix, Ip};
use surreal_core::limiter::init;
use surreal_core::parser::parse;
use surreal_core::statement::Query;
use surreal_core::utime;

#[test]
fn key() {
    let val = Ip::new("1.2.3.4");
    let enc = Ip::encode(&val).unwrap();
    let dec = Ip::decode(&enc).unwrap();
    assert_eq!(val, dec);
}

#[test]
fn key_wire_form() {
    let enc = Ip::new("1.2.3.4").encode().unwrap();
    assert_eq!(enc, b"/!lm1.2.3.4\0".to_vec());
    assert_eq!(prefix(), b"/!ip\0".to_vec());
    assert_eq!(suffix(), b"/!ip\xff".to_vec());
}

#[test]
fn key_refuses_unencodable_addresses() {
    assert!(Ip::new("bad\u{1F600}address").encode().is_err());
    assert!(Ip::decode(&b"/!lm1.2.3.4".to_vec()).is_err());
    assert!(Ip::decode(&b"xxxx1.2.3.4\0".to_vec()).is_err());
}

#[test]
fn timestamps_order_across_wraparound() {
    assert!(utime::is_on_or_after(5, 3));
    assert!(utime::is_on_or_after(3, 3));
    assert!(!utime::is_on_or_after(3, 5));
    // `after` just past the wrap still sorts after `before` near the top
    assert!(utime::is_on_or_after(2, u32::MAX - 2));
    assert_eq!(utime::add(u32::MAX, 1), 0);
    assert_eq!(utime::add(7, 8), 15);
    let _ = utime::now();
}

#[test]
fn limiter_init_builds_defaults() {
    let l = init().unwrap();
    let _ = l;
}

#[test]
fn codec_rejects_noise() {
    assert!(matches!(Query::decode(&vec![]), Err(Error::QueryEmpty)));
    assert!(Query::decode(&vec![9, 9, 9, 9, 9, 9, 9, 9, 9]).is_err());
}

#[test]
fn codec_round_trips_statements() {
    let q = parse("BEGIN; USE NS n DB d; LET $x = 'v'; OPTION IMPORT = false; RETURN $x; CREATE t:1; SELECT * FROM t; COMMIT;")
        .unwrap();
    let enc = q.encode();
    let dec = Query::decode(&enc).unwrap();
    assert_eq!(q, dec);
}
