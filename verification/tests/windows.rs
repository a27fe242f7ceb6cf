use multicliprelay::apply::Applier;
use multicliprelay::autostart::{autostart_script, autostart_script_path, is_enabled, startup_dir};
use multicliprelay::clip::Action;
use multicliprelay::hash::sha256_hex;
use multicliprelay::message::{Kind, Message};
use multicliprelay::win_clipboard::{
    cut_at_zero, dib_formats, drop_formats_of, encode_utf16, read_text, text_formats, wide0,
};
use multicliprelay::win_image::rgba_to_dibv5;
use multicliprelay::win_sync::{
    bundle_line, on_message, takes, unpacked_items, verdict_of, watch_image, watch_text, Verdict, WinStep,
    WinWatch,
};

#[test]
fn text_survives_the_clipboard() {
    for s in ["", "abc", "ü€", "a\u{1F600}b"] {
        let w = wide0(s);
        let want: Vec<u16> = s.encode_utf16().chain(std::iter::once(0)).collect();
        assert_eq!(w, want);
        assert_eq!(read_text(&w), s);
    }
    assert_eq!(encode_utf16("a\u{1F600}"), vec![0x61, 0xd83d, 0xde00]);
    assert_eq!(cut_at_zero(&vec![1, 2, 0, 3]), vec![1, 2]);
    assert_eq!(cut_at_zero(&vec![1, 2]), vec![1, 2]);
    assert_eq!(read_text(&vec![0xd83d, 0x61]), "\u{fffd}a");
}

#[test]
fn formats_carry_the_marker() {
    let f = text_formats("a", 77, b"sha");
    assert_eq!(f.len(), 2);
    assert_eq!(f[0].format, 13);
    assert_eq!(f[0].bytes, vec![97, 0, 0, 0]);
    assert_eq!(f[1].format, 77);
    assert_eq!(f[1].bytes, b"sha");
    let d = dib_formats(vec![1, 2], 77, b"sha");
    assert_eq!(d[0].format, 17);
    assert_eq!(d[1].bytes, b"sha");
    let files = drop_formats_of(&vec![vec![0x41], vec![0x42]], 66, 77, b"sha").expect("files");
    assert_eq!(files[0].format, 15);
    assert_eq!(&files[0].bytes[..4], &20u32.to_le_bytes());
    assert_eq!(&files[0].bytes[20..], &[0x41, 0, 0, 0, 0x42, 0, 0, 0, 0, 0]);
    assert!(files.iter().any(|f| f.format == 77));
    assert!(files.iter().any(|f| f.format == 66));
}

#[test]
fn content_is_sent_once() {
    assert_eq!(verdict_of(None, None, "s", false), Verdict::Send);
    assert_eq!(verdict_of(None, None, "s", true), Verdict::Hold);
    assert_eq!(verdict_of(Some("s"), None, "s", false), Verdict::Hold);
    assert_eq!(verdict_of(Some("t"), Some("s"), "s", false), Verdict::Known);
    assert_eq!(verdict_of(Some("t"), Some("u"), "s", false), Verdict::Send);
    let mut w = WinWatch::new(1);
    assert!(!w.changed(1, false));
    assert!(w.changed(2, false));
    assert!(!w.changed(3, true));
    assert!(!w.changed(3, false));
}

#[test]
fn images_and_text_are_watched() {
    let dib = rgba_to_dibv5(1, 1, &[1, 2, 3, 4]).expect("dib");
    let o = watch_image(&dib, 9999).expect("image");
    assert_eq!(o.mime, "image/png");
    assert_eq!(o.sha, sha256_hex(&o.bytes));
    assert!(watch_image(&dib, 10).is_none());
    assert!(watch_image(b"x", 10).is_none());
    let t = watch_text("ü", 2).expect("text");
    assert_eq!(t.bytes, "ü".as_bytes());
    assert!(watch_text("ü", 1).is_none());
    assert!(watch_text("", 9).is_none());
}

fn message(kind: Kind, payload: &[u8]) -> Message {
    let mut m = Message::text_at("i".to_string(), 1, "other", "r", "");
    m.kind = kind;
    m.payload = Some(payload.to_vec());
    m.sha256 = Some("0123456789".to_string());
    m
}

#[test]
fn messages_are_applied_on_windows() {
    let mut a = Applier::new();
    let m = message(Kind::Text, b"hi");
    let WinStep::Text(t, sha, actions) = on_message(&mut a, "me", b"/r", &m) else {
        panic!("text")
    };
    assert_eq!(t, "hi");
    assert_eq!(sha, "0123456789");
    assert_eq!(actions.len(), 3);
    assert!(matches!(&actions[2], Action::Say(l) if l == "applied text (2 bytes)"));
    assert!(matches!(on_message(&mut a, "me", b"/r", &m), WinStep::Nothing));
    assert!(matches!(on_message(&mut a, "other", b"/r", &message(Kind::File, b"x")), WinStep::Nothing));
    let mut f = message(Kind::File, b"x");
    f.mime = None;
    let WinStep::File(sha, dir) = on_message(&mut a, "me", b"/r", &f) else {
        panic!("file")
    };
    assert_eq!(sha, "0123456789");
    assert_eq!(dir, b"/r/01234567");
    let mut i = message(Kind::Image, b"nope");
    i.mime = Some("image/gif".to_string());
    assert!(matches!(on_message(&mut a, "me", b"/r", &i), WinStep::Nothing));
}

#[test]
fn unpacked_archives_offer_what_they_hold() {
    assert_eq!(unpacked_items(b"/d", vec![]), vec![b"/d".to_vec()]);
    assert_eq!(unpacked_items(b"/d", vec![b"/d/a".to_vec()]), vec![b"/d/a".to_vec()]);
    assert_eq!(bundle_line(2, 30), "applied file bundle -> 2 item(s) (30 bytes)");
}

#[test]
fn the_tray_starts_with_windows() {
    assert_eq!(
        startup_dir(Some("C:\\Users\\u\\AppData")).as_deref(),
        Some("C:\\Users\\u\\AppData\\Microsoft\\Windows\\Start Menu\\Programs\\Startup")
    );
    assert_eq!(
        autostart_script_path(Some("D:\\")).as_deref(),
        Some("D:\\Microsoft\\Windows\\Start Menu\\Programs\\Startup\\multicliprelay-ui-tray.cmd")
    );
    assert_eq!(autostart_script_path(None), None);
    assert!(is_enabled(Some(true)));
    assert!(!is_enabled(Some(false)));
    assert!(!is_enabled(None));
    assert_eq!(
        autostart_script("C:\\x.exe"),
        "@echo off\r\nstart \"\" /min \"C:\\x.exe\"\r\n"
    );
}

#[test]
fn digests_that_cannot_be_cut_are_not_taken() {
    let mut m = Message::text_at("i".to_string(), 1, "other", "r", "hi");
    m.kind = Kind::File;
    for (sha, ok) in [("1234567\u{e9}", false), ("short", true), ("0123456789", true)] {
        m.sha256 = Some(sha.to_string());
        assert_eq!(takes(&Applier::new(), "me", &m), ok);
        assert!(takes(&Applier::new(), "other", &m));
    }
    m.sha256 = None;
    assert!(takes(&Applier::new(), "me", &m));
}
