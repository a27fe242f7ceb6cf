use multicliprelay::clip::Item;
use multicliprelay::hash::sha256_hex;
use multicliprelay::x11_owner::{
    answer, collect, max_direct_bytes, outcome_of, pairs_of, parts_of, target_list, Answer, Atoms,
    Part, Piece, PropertyType, Transfer, TransferEvent, TransferStep, Value,
};
use multicliprelay::x11_poll::{
    first_read_of, hook_copy, hook_key, is_text_sync_paused, pause_text, pick_x11_image_type,
    read_after_of, read_type_of, Poller, Read,
};
use multicliprelay::x11_sync::{
    env_number, looks_like_file_uri_list_text, marker_says, state_path, step_type_of, tick_ms,
    to_wayland_of, wl_marker_origin_is_x11, wl_notify_socket_path, Gather, RateLimiter, Scheduler,
    Side, Task, X11Snapshot, X11SyncOpts,
};

const ATOMS: Atoms = Atoms { targets: 10, multiple: 11, timestamp: 12, incr: 13 };

#[test]
fn targets_are_listed_once_and_in_order() {
    let p = collect(vec![(30, b"a".to_vec()), (20, b"b".to_vec()), (30, b"c".to_vec())], 10);
    assert_eq!(target_list(&p, ATOMS), vec![10, 12, 20, 30]);
    assert_eq!(p.get(20), Some(&b"b".to_vec()));
}

#[test]
fn requests_are_answered() {
    let p = collect(vec![(20, b"hi".to_vec()), (21, vec![7; 100])], 10);
    let Answer::Direct(w) = answer(&p, ATOMS, 20, 5, 50) else { panic!("direct") };
    assert_eq!(w.property, 5);
    assert_eq!(w.ptype, PropertyType::Other(20));
    assert!(matches!(w.value, Value::Bytes(b) if b == b"hi"));
    let Answer::Direct(t) = answer(&p, ATOMS, 10, 0, 50) else { panic!("targets") };
    assert_eq!(t.property, 10);
    assert_eq!(t.ptype, PropertyType::Atom);
    let Answer::Direct(ts) = answer(&p, ATOMS, 12, 5, 50) else { panic!("time") };
    assert!(matches!(ts.value, Value::Words(w) if w == vec![0]));
    let Answer::InPieces(i) = answer(&p, ATOMS, 21, 5, 50) else { panic!("pieces") };
    assert_eq!(i.ptype, PropertyType::Other(13));
    assert!(matches!(i.value, Value::Words(w) if w == vec![100]));
    assert!(matches!(answer(&p, ATOMS, 11, 5, 50), Answer::Multiple(5)));
    assert!(matches!(answer(&p, ATOMS, 99, 5, 50), Answer::Refuse));
}

#[test]
fn several_requests_are_answered_together() {
    let p = collect(vec![(20, b"hi".to_vec())], 10);
    let reqs = pairs_of(32, &vec![20, 5, 99, 6, 20, 0]).expect("pairs");
    assert_eq!(reqs, vec![(20, 5), (99, 6), (20, 0)]);
    assert_eq!(pairs_of(8, &vec![1, 2]), None);
    assert_eq!(pairs_of(32, &vec![1]), None);
    let parts = parts_of(&p, ATOMS, &reqs, 50);
    assert!(matches!(parts[0], Part::Write(_)));
    assert!(matches!(parts[1], Part::Fail));
    assert!(matches!(parts[2], Part::Keep));
    assert_eq!(
        outcome_of(&reqs, &parts, &vec![true, false, false]),
        vec![20, 5, 99, 0, 20, 0]
    );
    assert_eq!(
        outcome_of(&reqs, &parts, &vec![false, false, false]),
        vec![20, 0, 99, 0, 20, 0]
    );
}

#[test]
fn long_payloads_go_in_pieces() {
    assert_eq!(max_direct_bytes(0), 8192);
    assert_eq!(max_direct_bytes(65535), 65535 * 4 - 1024);
    let data: Vec<u8> = (0..200_000u32).map(|i| i as u8).collect();
    let mut t = Transfer::new(data.len());
    let mut got = Vec::new();
    loop {
        match t.on_event(0, 1, 2, TransferEvent::Property { window: 1, atom: 2, deleted: true }) {
            TransferStep::Hand(Piece::Data(a, b)) => got.extend_from_slice(&data[a..b]),
            TransferStep::Hand(Piece::End) => break,
            s => panic!("{s:?}"),
        }
    }
    assert_eq!(got, data);
    let mut u = Transfer::new(5);
    assert_eq!(u.on_event(0, 1, 2, TransferEvent::Other), TransferStep::Wait);
    assert_eq!(
        u.on_event(0, 1, 2, TransferEvent::Property { window: 1, atom: 2, deleted: false }),
        TransferStep::Wait
    );
    assert_eq!(u.on_event(0, 1, 2, TransferEvent::Cleared), TransferStep::Lost);
    assert_eq!(u.on_event(u64::MAX, 1, 2, TransferEvent::Cleared), TransferStep::GiveUp);
    assert_eq!(u.next(), Piece::Data(0, 5));
    assert_eq!(u.next(), Piece::End);
}

#[test]
fn hits_are_limited_in_a_window() {
    let mut l = RateLimiter::new(1000, 2);
    assert!(l.allow(0));
    assert!(l.allow(500));
    assert!(!l.allow(999));
    assert!(l.allow(1000));
    assert!(!l.allow(1499));
    assert!(l.allow(1500));
    assert!(!RateLimiter::new(1000, 0).allow(0));
    let mut free = RateLimiter::new(0, 1);
    assert!(free.allow(5));
    assert!(free.allow(5));
}

fn snapshot(text: &str) -> X11Snapshot {
    X11Snapshot {
        marked_from_wayland: false,
        items: vec![Item::text("text/plain", text)],
    }
}

fn brought(t: Task) -> Option<String> {
    match t {
        Task::ToWayland(s) => Some(String::from_utf8(s.items[0].bytes.clone()).expect("text")),
        _ => None,
    }
}

#[test]
fn work_waits_for_the_limit() {
    let mut s = Scheduler::new(1000, 1);
    assert!(matches!(s.on_tick(0), Task::Idle));
    assert_eq!(brought(s.on_snapshot(snapshot("a"), 0)), Some("a".to_string()));
    assert!(matches!(s.on_snapshot(snapshot("b"), 10), Task::Idle));
    assert!(matches!(s.on_snapshot(snapshot("c"), 20), Task::Idle));
    assert!(matches!(s.on_wayland(30), Task::Idle));
    assert!(matches!(s.on_tick(40), Task::Idle));
    assert_eq!(brought(s.on_tick(1000)), Some("c".to_string()));
    assert!(matches!(s.on_tick(1999), Task::Idle));
    assert!(matches!(s.on_tick(2000), Task::ToX11));
    assert!(matches!(s.on_tick(9000), Task::Idle));
    assert!(matches!(s.on_wayland(9000), Task::ToX11));
}

fn gather(side: Side, texts: usize, held: &[(&str, &[u8])]) -> Gather {
    let mut g = Gather::new(texts);
    while let Some(step) = g.wants() {
        let t = step_type_of(side, step);
        g.take(held.iter().find(|(m, _)| *m == t).map(|(_, b)| b.to_vec()));
    }
    g
}

fn mimes(items: &[Item]) -> Vec<&str> {
    items.iter().map(|i| i.mime.as_str()).collect()
}

#[test]
fn the_x11_clipboard_is_read_in_order() {
    let g = gather(
        Side::X11,
        4,
        &[
            ("image/jpeg", b"j"),
            ("image/gif", b"g"),
            ("image/png", b""),
            ("x-special/gnome-copied-files", b"f"),
            ("STRING", b"s"),
            ("text/plain", b"p"),
        ],
    );
    let s = g.snapshot(false);
    assert_eq!(
        mimes(&s.items),
        vec!["x-special/gnome-copied-files", "image/jpeg", "text/plain;charset=utf-8", "text/plain"]
    );
    assert_eq!(s.items[2].bytes, b"p");
}

#[test]
fn text_that_names_files_is_a_list_of_files() {
    let g = gather(Side::X11, 4, &[("UTF8_STRING", b"file:///a\n")]);
    assert_eq!(
        mimes(&g.snapshot(false).items),
        vec!["text/plain;charset=utf-8", "text/plain", "text/uri-list"]
    );
    let h = gather(Side::X11, 4, &[("UTF8_STRING", b"file:///a\n"), ("text/uri-list", b"x")]);
    assert_eq!(
        mimes(&h.snapshot(false).items),
        vec!["text/uri-list", "text/plain;charset=utf-8", "text/plain"]
    );
    assert!(looks_like_file_uri_list_text("x\n  file:/a"));
    assert!(!looks_like_file_uri_list_text("see file:///a"));
}

#[test]
fn x11_content_goes_to_wayland_once() {
    let set = to_wayland_of(snapshot("hi"), None).expect("items");
    assert_eq!(
        mimes(&set.items),
        vec!["application/x-multicliprelay-x11-sync", "text/plain"]
    );
    assert_eq!(set.items[0].bytes, b"from=x11");
    let material = format!(
        "application/x-multicliprelay-x11-sync:{}\ntext/plain:{}",
        sha256_hex(b"from=x11"),
        sha256_hex(b"hi")
    );
    assert_eq!(set.sha, sha256_hex(material.as_bytes()));
    assert!(to_wayland_of(snapshot("hi"), Some(&set.sha)).is_none());
    assert!(to_wayland_of(snapshot(""), None).is_none());
    let mut marked = snapshot("hi");
    marked.marked_from_wayland = true;
    assert!(to_wayland_of(marked, None).is_none());
}

#[test]
fn wayland_content_goes_to_x11_once() {
    let g = gather(Side::Wayland, 2, &[("image/webp", b"w"), ("text/plain", b"t")]);
    let set = g.to_x11_of(None).expect("items");
    assert_eq!(
        mimes(&set.items),
        vec![
            "application/x-multicliprelay-x11-sync",
            "image/webp",
            "UTF8_STRING",
            "STRING",
            "text/plain;charset=utf-8",
            "text/plain",
        ]
    );
    assert_eq!(set.items[0].bytes, b"from=wl");
    assert!(g.to_x11_of(Some(&set.sha)).is_none());
    assert!(gather(Side::Wayland, 2, &[]).to_x11_of(None).is_none());
}

#[test]
fn markers_tell_the_side() {
    assert!(marker_says(true, Some(b"from=wl\nx"), "from=wl"));
    assert!(!marker_says(true, Some(b"from=x11"), "from=wl"));
    assert!(!marker_says(true, Some(b"\nfrom=wl"), "from=wl"));
    assert!(marker_says(true, None, "from=wl"));
    assert!(!marker_says(false, None, "from=wl"));
    let types = "text/plain\napplication/x-multicliprelay-x11-sync\n";
    assert!(wl_marker_origin_is_x11(types, Some(b"from=x11")));
    assert!(!wl_marker_origin_is_x11("text/plain", Some(b"from=x11")));
}

#[test]
fn the_sync_keeps_its_state_in_a_directory() {
    assert_eq!(state_path(b"/s", "k"), b"/s/x11-sync/k");
    assert_eq!(wl_notify_socket_path(b"/s"), b"/s/x11-sync/wl_notify.sock");
    let mut o = X11SyncOpts {
        state_dir: b"/s".to_vec(),
        poll_interval_ms: 10,
        max_text_bytes: 1,
        max_image_bytes: 2,
    };
    assert_eq!(tick_ms(&o), 50);
    o.poll_interval_ms = 200;
    assert_eq!(tick_ms(&o), 200);
    assert_eq!(env_number(Some("3"), u64::MAX), Some(3));
    assert_eq!(env_number(Some("x"), u64::MAX), None);
    assert_eq!(env_number(None, u64::MAX), None);
}

#[test]
fn image_types_are_picked_by_preference() {
    assert_eq!(pick_x11_image_type("TARGETS\nimage/gif\nimage/jpeg"), Some("image/jpeg"));
    assert_eq!(pick_x11_image_type("image/png-x"), Some("image/png"));
    assert_eq!(pick_x11_image_type("image/webp"), None);
}

#[test]
fn text_can_be_paused() {
    let p = pause_text(1000, 500);
    assert_eq!(p, "1500");
    assert!(is_text_sync_paused(Some(&p), 1500));
    assert!(!is_text_sync_paused(Some(&p), 1501));
    assert!(!is_text_sync_paused(Some("x"), 1));
    assert!(is_text_sync_paused(Some("x"), 0));
    assert!(!is_text_sync_paused(Some(" "), 0));
    assert!(!is_text_sync_paused(None, 0));
}

#[test]
fn hooks_copy_what_x11_does_not_hold() {
    let c = hook_copy("text", b"hi", None).expect("copy");
    assert_eq!((c.mime, c.wl_key, c.x11_key), ("UTF8_STRING", "wl_text_hash", "x11_text_hash"));
    assert_eq!(c.sha, sha256_hex(b"hi"));
    assert!(hook_copy("text", b"hi", Some(&c.sha)).is_none());
    assert!(hook_copy("text", &vec![0; 1024 * 1024 + 1], None).is_none());
    assert!(hook_copy("image", &vec![0; 1024 * 1024 + 1], None).is_some());
    assert!(hook_copy("full", b"hi", None).is_none());
    assert_eq!(hook_key("image"), Some("x11_img_hash"));
    assert_eq!(hook_key("full"), None);
}

#[test]
fn polling_reads_text_only_without_an_image() {
    assert_eq!(first_read_of("TARGETS\nUTF8_STRING\nimage/gif"), Read::Image);
    assert_eq!(read_type_of(Read::Image, "UTF8_STRING\nimage/gif"), "image/gif");
    assert_eq!(first_read_of("TARGETS\nUTF8_STRING"), Read::Utf8);
    assert_eq!(read_type_of(Read::Utf8, ""), "UTF8_STRING");
    assert_eq!(read_after_of(Read::Utf8), Some(Read::Plain));
    assert_eq!(read_type_of(Read::Plain, ""), "STRING");
    assert_eq!(read_after_of(Read::Plain), None);
    assert_eq!(read_after_of(Read::Image), None);
}

#[test]
fn polling_brings_over_what_is_new() {
    let mut p = Poller::new(None, Some(sha256_hex(b"old")));
    assert!(p.on_image("image/jpeg", b"old", 9).is_none());
    assert!(p.on_image("image/jpeg", b"new", 2).is_none());
    assert!(p.on_image("STRING", b"new", 9).is_none());
    let i = p.on_image("image/jpeg", b"new", 9).expect("image");
    assert_eq!((i.mime, i.x11_key, i.wl_key), ("image/jpeg", "x11_img_hash", "wl_img_hash"));
    assert_eq!(i.sha, sha256_hex(b"new"));
    assert!(i.clears_x11);
    assert!(p.on_image("image/jpeg", b"new", 9).is_none());
    assert!(p.on_text("", b"t", 9, None, 0, "text/uri-list", b"").is_none());
    assert!(p.on_text("", b"t", 9, Some("5"), 5, "", b"").is_none());
    assert!(p.on_text("", b"file:///a", 99, None, 0, "", b"").is_none());
    assert!(p.on_text("", b"t", 9, None, 0, "", b"t").is_none());
    assert!(p.on_text("image/png", b"t", 9, None, 0, "text/plain", b"").is_none());
    let t = p.on_text("", b"t", 9, None, 0, "text/plain", b"").expect("text");
    assert_eq!(t.mime, "text/plain;charset=utf-8");
    assert_eq!((t.x11_key, t.wl_key), ("x11_text_hash", "wl_text_hash"));
    assert_eq!(t.sha, sha256_hex(b"t"));
    assert!(!t.clears_x11);
    assert!(p.on_text("", b"t", 9, None, 0, "text/plain", b"").is_none());
    assert!(hook_copy("text", b"t", Some(&t.sha)).is_none());
}
