use multicliprelay::dedup::{last_sent_file, last_sent_path, read_last_sent};
use multicliprelay::history::{kind_to_string, received_event, sent_event};
use multicliprelay::image_mode::{image_mode_as_cli_arg, parse_image_mode, ImageMode};
use multicliprelay::message::{Kind, Message};
use multicliprelay::node::{
    device_id_of, hook_env_of, listen_line_of, lock_path, text_message, x11_watch_mimes,
    HookSettings,
};
use multicliprelay::path::{from_windows, last_name_text_of, parts_of};
use multicliprelay::paths::{
    default_data_dir, default_state_dir, first_8, history_path, is_tar_payload, received_dir,
    safe_for_filename,
};
use multicliprelay::suppress::{file_suppress_path, is_suppressed, marker_text, suppress_path};
use multicliprelay::text::{lines, split, to_lower, trim};

#[test]
fn directories_follow_the_environment() {
    assert_eq!(default_state_dir(Some("/run/user/1"), b"/tmp", 7), b"/run/user/1/multicliprelay");
    assert_eq!(
        default_data_dir(Some("/data"), Some("/home/u"), b"/tmp"),
        b"/data/multicliprelay"
    );
    assert_eq!(
        default_data_dir(None, Some("/home/u"), b"/tmp"),
        b"/home/u/.local/share/multicliprelay"
    );
    assert_eq!(received_dir(b"/d"), b"/d/received");
    assert_eq!(history_path(b"/d"), b"/d/history.jsonl");
}

#[test]
fn file_names_are_made_safe() {
    assert_eq!(safe_for_filename("a/b c:d.txt"), safe_for_filename(&safe_for_filename("a/b c:d.txt")));
    assert!(!safe_for_filename("a/b").contains('/'));
    assert_eq!(safe_for_filename("plain-Name_1.txt"), "plain-Name_1.txt");
}

#[test]
fn archives_are_known_by_name_or_type() {
    assert!(is_tar_payload("x.TAR", None));
    assert!(is_tar_payload("x", Some("application/x-tar")));
    assert!(!is_tar_payload("x.tar.gz", Some("application/gzip")));
}

#[test]
fn first_eight_bytes() {
    assert_eq!(first_8("0123456789"), "01234567");
    assert_eq!(first_8("abc"), "abc");
}

#[test]
fn markers_hold_back_their_digest_until_their_time() {
    let m = marker_text("abc", 1000, 500);
    assert_eq!(m, "abc\n1500\n");
    assert!(is_suppressed(Some(&m), "abc", 1500));
    assert!(!is_suppressed(Some(&m), "abc", 1501));
    assert!(!is_suppressed(Some(&m), "abd", 1000));
    assert!(!is_suppressed(None, "abc", 1000));
    assert!(!is_suppressed(Some("abc\nx\n"), "abc", 1));
    assert!(is_suppressed(Some("abc"), "abc", 0));
    assert_eq!(marker_text("a", u64::MAX, 5), "a\n18446744073709551615\n");
}

#[test]
fn marker_files_belong_to_room_and_type() {
    assert_eq!(
        suppress_path(b"/s", "a/b", "text/plain;charset=utf-8"),
        b"/s/suppress_a_b_text_plain_charset_utf-8"
    );
    assert_eq!(
        file_suppress_path(b"/s", "r"),
        b"/s/suppress_r_application_x-multicliprelay-file"
    );
}

#[test]
fn last_digest_is_kept_in_a_file() {
    assert_eq!(last_sent_path(b"/s", "my room", "image/png"), b"/s/lastsent_my_room_image_png");
    assert_eq!(read_last_sent(&last_sent_file("abc")), Some("abc".to_string()));
    assert_eq!(read_last_sent(" \n"), None);
}

#[test]
fn image_modes_have_names() {
    for m in [
        ImageMode::Passthrough,
        ImageMode::ForcePng,
        ImageMode::MultiMime,
        ImageMode::SpoofPng,
    ] {
        assert_eq!(parse_image_mode(image_mode_as_cli_arg(m)), Ok(m));
    }
    assert_eq!(parse_image_mode("multi-mime"), Ok(ImageMode::MultiMime));
    assert_eq!(parse_image_mode("fake-png"), Ok(ImageMode::SpoofPng));
    assert_eq!(
        parse_image_mode("x"),
        Err("invalid --image-mode x, expected force-png|multi|passthrough|spoof-png".to_string())
    );
}

#[test]
fn events_tell_who_and_what() {
    let e = sent_event(
        5,
        "me",
        None,
        "room",
        "relay",
        Kind::File,
        Some("m".to_string()),
        Some("n".to_string()),
        9,
        Some("s".to_string()),
    );
    assert_eq!(e.dir, "send");
    assert_eq!(e.kind, "file");
    assert_eq!(e.bytes, 9);
    assert_eq!(e.remote_device_id, None);
    let mut m = Message::text_at("i".to_string(), 1, "other", "room", "hi");
    m.sender_name = Some("bob".to_string());
    let r = received_event(6, "me", None, "room", "relay", &m);
    assert_eq!(r.dir, "recv");
    assert_eq!(r.kind, "text");
    assert_eq!(r.remote_device_id.as_deref(), Some("other"));
    assert_eq!(r.remote_device_name.as_deref(), Some("bob"));
    assert_eq!(r.bytes, 2);
    assert_eq!(kind_to_string(Kind::Join), "join");
    assert_eq!(kind_to_string(Kind::Image), "image");
}

#[test]
fn locks_belong_to_command_room_and_relay() {
    let p = lock_path(b"/s", "wl-watch", "my/room", "127.0.0.1:8080");
    let name = String::from_utf8(p).expect("text");
    assert!(name.starts_with("/s/wl-watch_room="));
    assert!(name.ends_with(".lock"));
    assert_eq!(name.matches('/').count(), 2);
}

#[test]
fn device_id_is_kept_or_new() {
    let d = device_id_of(Some("  abc\n"));
    assert_eq!(d.id, "abc");
    assert!(!d.is_new);
    let n = device_id_of(Some(" \n"));
    assert!(n.is_new);
    assert_eq!(n.id.len(), 36);
    let o = device_id_of(None);
    assert!(o.is_new);
    assert_ne!(o.id, n.id);
}

#[test]
fn messages_are_listed_on_a_line() {
    let mut m = Message::text_at("i".to_string(), 1, "dev", "room", "hi");
    assert_eq!(listen_line_of(&m), "RECV from dev kind=Text text=hi");
    m.kind = Kind::Image;
    m.mime = Some("image/png".to_string());
    m.sha256 = Some("s".to_string());
    assert_eq!(listen_line_of(&m), "RECV from dev kind=Image mime=image/png bytes=2 sha256=s");
    m.kind = Kind::File;
    assert_eq!(
        listen_line_of(&m),
        "RECV from dev kind=File name=(no-name) mime=image/png bytes=2 sha256=s"
    );
    m.kind = Kind::Join;
    assert_eq!(listen_line_of(&m), "RECV from dev kind=Join");
    m.kind = Kind::Text;
    m.payload = Some(vec![97, 0xff, 98]);
    assert_eq!(listen_line_of(&m), "RECV from dev kind=Text text=a\u{fffd}b");
}

#[test]
fn text_messages_carry_their_digest() {
    let m = text_message("dev", "room", "hello");
    assert_eq!(
        m.sha256.as_deref(),
        Some("2cf24dba5fb0a30e26e83b2ac5b9e29e1b161e5c1fa7425e73043362938b9824")
    );
    assert_eq!(m.payload.as_deref(), Some(b"hello".as_slice()));
}

#[test]
fn hooks_get_their_settings() {
    let env = hook_env_of(&HookSettings {
        candidate: "image/png",
        state_dir: "/s",
        device_id: "d",
        room: "r",
        relay: "h:1",
        max_text_bytes: 1,
        max_image_bytes: 2,
        max_file_bytes: 3,
        debug_path: Some("/log"),
        image_mode: ImageMode::MultiMime,
    });
    let pairs: Vec<(&str, &str)> = env.iter().map(|v| (v.name, v.value.as_str())).collect();
    assert_eq!(
        pairs,
        vec![
            ("MCR_WL_WATCH_HOOK", "1"),
            ("MCR_WATCH_CANDIDATE_MIME", "image/png"),
            ("MCR_STATE_DIR", "/s"),
            ("MCR_DEVICE_ID", "d"),
            ("MCR_ROOM", "r"),
            ("MCR_RELAY", "h:1"),
            ("MCR_MAX_TEXT_BYTES", "1"),
            ("MCR_MAX_IMAGE_BYTES", "2"),
            ("MCR_MAX_FILE_BYTES", "3"),
            ("MCR_IMAGE_MODE", "multi"),
            ("MCR_HOOK_DEBUG_PATH", "/log"),
        ]
    );
    assert_eq!(x11_watch_mimes().len(), 9);
}

#[test]
fn text_is_cut_and_trimmed() {
    assert_eq!(lines("a\r\nb\n\nc\r"), vec!["a", "b", "", "c\r"]);
    assert_eq!(split("a\t\tb", '\t'), vec!["a", "", "b"]);
    assert_eq!(trim("\u{3000} a b \n"), "a b");
    assert_eq!(to_lower("ÀBc.TXT"), "Àbc.txt");
}

#[test]
fn a_star_holds_every_digest_back() {
    let m = marker_text("*", 1000, 500);
    assert_eq!(m, "*\n1500\n");
    assert!(is_suppressed(Some(&m), "abc", 1500));
    assert!(is_suppressed(Some(&m), "0", 1000));
    assert!(!is_suppressed(Some(&m), "abc", 1501));
    assert!(!is_suppressed(Some("abc\n1500\n"), "*", 1000));
}

#[test]
fn rooms_have_markers_of_their_own() {
    let a = suppress_path(b"/s", "one", "text/plain;charset=utf-8");
    let b = suppress_path(b"/s", "two", "text/plain;charset=utf-8");
    assert_eq!(a, b"/s/suppress_one_text_plain_charset_utf-8");
    assert_eq!(b, b"/s/suppress_two_text_plain_charset_utf-8");
    assert_eq!(suppress_path(b"/s/", "a/b", "x/../y"), b"/s/suppress_a_b_x_.._y");
}

#[test]
fn paths_of_windows_get_slashes() {
    let p = from_windows(br"C:\a\b.txt");
    assert_eq!(p, b"C:/a/b.txt");
    assert_eq!(last_name_text_of(&parts_of(&p)).as_deref(), Some("b.txt"));
    assert_eq!(from_windows(b"/a/b"), b"/a/b");
}
