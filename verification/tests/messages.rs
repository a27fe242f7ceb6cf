use multicliprelay::frame::{frame, frame_len, join_frame, sender_name_of};
use multicliprelay::hash::{sha256_hex, to_hex};
use multicliprelay::message::{ms_of_nanos, now_ms, DecodeError, Kind, Message};
use multicliprelay::number::{parse, print};

#[test]
fn message_file_roundtrip_preserves_name() {
    let mut m = Message::new_file("dev", "room", "hello.txt", "text/plain", b"hi".to_vec());
    m.sha256 = Some("abc".to_string());
    m.sender_name = Some("alice".to_string());
    let b = m.to_bytes();
    let m2 = Message::try_from_bytes(&b).expect("decode");
    assert!(matches!(m2.kind, Kind::File));
    assert_eq!(m2.name.as_deref(), Some("hello.txt"));
    assert_eq!(m2.sender_name.as_deref(), Some("alice"));
    assert_eq!(m2.mime.as_deref(), Some("text/plain"));
    assert_eq!(m2.payload.as_deref(), Some(b"hi".as_slice()));
    assert_eq!(m2.sha256.as_deref(), Some("abc"));
}

#[test]
fn message_v1_is_backward_compatible() {
    let v1 = (
        "e".to_string(),
        "dev".to_string(),
        1u64,
        Kind::Text.number(),
        "room".to_string(),
        Some("text/plain".to_string()),
        None::<String>,
        Some(b"hi".to_vec()),
        2usize,
        None::<String>,
    );
    let b = bincode::serialize(&v1).expect("serialize v1");
    let m = Message::try_from_bytes(&b).expect("decode");
    assert_eq!(m.device_id, "dev");
    assert_eq!(m.sender_name, None);
    assert!(matches!(m.kind, Kind::Text));
    assert_eq!(m.size, 2);
}

#[test]
fn oldest_format_still_reads() {
    let v0 = (
        "e".to_string(),
        "dev".to_string(),
        1u64,
        Kind::Image.number(),
        "room".to_string(),
        None::<String>,
        None::<String>,
        Some(b"abcd".to_vec()),
    );
    let b = bincode::serialize(&v0).expect("serialize");
    let m = Message::from_bytes(&b);
    assert_eq!(m.kind, Kind::Image);
    assert_eq!(m.size, 4);
    assert_eq!(m.sha256, None);
    assert_eq!(m.payload.as_deref(), Some(b"abcd".as_slice()));
}

#[test]
fn bytes_open_with_the_magic_and_hold_the_fields() {
    let m = Message::join_at("id".to_string(), 7, "dev", "room");
    let b = m.to_bytes();
    assert_eq!(&b[..4], b"MCR2");
    assert_eq!(&b[4..12], &2u64.to_le_bytes());
    assert_eq!(&b[12..14], b"id");
    let back = Message::try_from_bytes(&b).expect("decode");
    assert_eq!(back.event_id, "id");
    assert_eq!(back.ts, 7);
    assert_eq!(back.kind, Kind::Join);
    assert_eq!(back.payload, None);
}

#[test]
fn every_kind_survives() {
    for k in [Kind::Text, Kind::Image, Kind::File, Kind::Join] {
        assert_eq!(Kind::from_number(k.number()), Some(k));
        let mut m = Message::text_at("i".to_string(), 1, "d", "r", "t");
        m.kind = k;
        let back = Message::try_from_bytes(&m.to_bytes()).expect("decode");
        assert_eq!(back.kind, k);
    }
    assert_eq!(Kind::from_number(4), None);
}

#[test]
fn malformed_bytes_are_refused() {
    for b in [&b""[..], &b"MCR2"[..], &b"MCR2\x01"[..], &b"nonsense"[..], &[0xffu8; 64][..]] {
        assert!(matches!(Message::try_from_bytes(b), Err(DecodeError::Malformed)));
    }
}

#[test]
fn an_unknown_kind_is_refused() {
    let m = Message::text_at("i".to_string(), 1, "d", "r", "t");
    let mut b = m.to_bytes();
    // magic, two texts of one character, no sender, the time
    let at = 4 + 9 + 9 + 1 + 8;
    assert_eq!(b[at], 0);
    b[at] = 9;
    assert!(Message::try_from_bytes(&b).is_err());
}

#[test]
fn new_messages_carry_their_payload() {
    let t = Message::new_text("dev", "room", "héllo");
    assert_eq!(t.kind, Kind::Text);
    assert_eq!(t.mime.as_deref(), Some("text/plain;charset=utf-8"));
    assert_eq!(t.payload.as_deref(), Some("héllo".as_bytes()));
    assert_eq!(t.size, 6);
    assert_eq!(t.event_id.len(), 36);
    let i = Message::new_image("dev", "room", "image/png", vec![1, 2, 3]);
    assert_eq!(i.kind, Kind::Image);
    assert_eq!(i.mime.as_deref(), Some("image/png"));
    assert_eq!(i.size, 3);
    let j = Message::new_join("dev", "room");
    assert_eq!(j.kind, Kind::Join);
    assert_eq!(j.size, 0);
    assert_ne!(t.event_id, i.event_id);
}

#[test]
fn clock_is_in_milliseconds() {
    assert_eq!(ms_of_nanos(None), 0);
    assert_eq!(ms_of_nanos(Some(1_700_000_000_123_456_789)), 1_700_000_000_123);
    assert!(now_ms() > 1_600_000_000_000);
}

#[test]
fn frames_hold_the_length_and_the_payload() {
    let f = frame(b"abc");
    assert_eq!(f, [0, 0, 0, 3, 97, 98, 99]);
    assert_eq!(frame_len(&[f[0], f[1], f[2], f[3]]), 3);
    assert_eq!(frame_len(&[1, 2, 3, 4]), 0x0102_0304);
    let long = frame(&vec![5u8; 70000]);
    assert_eq!(&long[..4], &[0, 1, 0x11, 0x70]);
}

#[test]
fn join_frame_names_its_sender() {
    let f = join_frame("dev", "laptop", "room");
    let n = frame_len(&[f[0], f[1], f[2], f[3]]);
    assert_eq!(n, f.len() - 4);
    let m = Message::try_from_bytes(&f[4..]).expect("decode");
    assert_eq!(m.kind, Kind::Join);
    assert_eq!(m.sender_name.as_deref(), Some("laptop"));
    assert_eq!(m.room, "room");
    assert_eq!(sender_name_of("  "), None);
    assert_eq!(sender_name_of(" x "), Some(" x ".to_string()));
}

#[test]
fn digests_are_lower_case_hex() {
    assert_eq!(
        sha256_hex(b"hello"),
        "2cf24dba5fb0a30e26e83b2ac5b9e29e1b161e5c1fa7425e73043362938b9824"
    );
    assert_eq!(
        sha256_hex(b""),
        "e3b0c44298fc1c149afbf4c8996fb92427ae41e4649b934ca495991b7852b855"
    );
    assert_eq!(to_hex(&[0, 0xab, 0x0f]), "00ab0f");
}

#[test]
fn numbers_are_printed_and_read() {
    assert_eq!(print(0), "0");
    assert_eq!(print(u128::MAX), "340282366920938463463374607431768211455");
    assert_eq!(parse("18446744073709551615", u64::MAX), Some(u64::MAX));
    assert_eq!(parse("18446744073709551616", u64::MAX), None);
    assert_eq!(parse("+7", u64::MAX), Some(7));
    assert_eq!(parse("", u64::MAX), None);
    assert_eq!(parse("+", u64::MAX), None);
    assert_eq!(parse("-1", u64::MAX), None);
    assert_eq!(parse(" 1", u64::MAX), None);
    assert_eq!(parse("256", 255), None);
    assert_eq!(parse("007", 255), Some(7));
}
