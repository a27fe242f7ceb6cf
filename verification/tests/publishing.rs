use multicliprelay::apply::{guard_actions, offer_image, Applier};
use multicliprelay::clip::Action;
use multicliprelay::consts::{
    APPLIED_MARKER_MIME, GNOME_COPIED_FILES_MIME, KDE_URI_LIST_MIME, URI_LIST_MIME,
};
use multicliprelay::hash::sha256_hex;
use multicliprelay::image_mode::ImageMode;
use multicliprelay::message::Message;
use multicliprelay::path::{parts_of, render};
use multicliprelay::publish::{existing_of, Limits, Publication, Round, Step};
use multicliprelay::received::{bundle_line, file_items_of, file_line};
use multicliprelay::services::{short_name, start_order, stop_order, Service};
use multicliprelay::suppress::{is_suppressed, marker_text};
use multicliprelay::textmap::TextMap;
use multicliprelay::watch::{hook_choice, HookChoice, Poll};
use multicliprelay::win_round::{Ask, WinRound};
use multicliprelay::win_sync::WinWatch;

const TEXT: &str = "text/plain;charset=utf-8";

const LIMITS: Limits = Limits { max_text: 100, max_image: 1000 };

fn paths(list: &[&str]) -> Vec<Vec<u8>> {
    list.iter().map(|p| p.as_bytes().to_vec()).collect()
}

#[test]
fn lists_of_files_are_sent_as_files() {
    let list = b"copy\nfile:///b\nfile:///a\nfile:///b\n".to_vec();
    let (_, step) = Publication::start(GNOME_COPIED_FILES_MIME, ImageMode::ForcePng, list);
    assert!(matches!(step, Step::SendFiles(ps) if ps == paths(&["/a", "/b"])));
    let (_, step) = Publication::start(URI_LIST_MIME, ImageMode::ForcePng, b"# none\n".to_vec());
    assert!(matches!(step, Step::Rest));
}

#[test]
fn text_that_names_files_is_sent_as_files_where_they_exist() {
    let text = b"file:///x\nfile:///y\n".to_vec();
    let (p, step) = Publication::start("text/plain", ImageMode::ForcePng, text.clone());
    assert!(matches!(step, Step::WhichExist(ps) if ps == paths(&["/x", "/y"])));
    let (_, step) = p.on_exist(&vec![false, true]);
    assert!(matches!(step, Step::SendFiles(ps) if ps == paths(&["/y"])));

    let (p, _) = Publication::start("text/plain", ImageMode::ForcePng, text.clone());
    let (p, step) = p.on_exist(&vec![false, false]);
    let sha = sha256_hex(&text);
    assert!(matches!(step, Step::IsHeldBack(m, s) if m == "text/plain" && s == sha));
    let step = p.on_held_back(false);
    assert!(matches!(step, Step::Send(out) if out.bytes == text && out.sha == sha));
}

#[test]
fn content_that_is_held_back_is_not_sent() {
    let (p, step) = Publication::start(TEXT, ImageMode::ForcePng, b"hello".to_vec());
    assert!(matches!(step, Step::IsHeldBack(_, s) if s == sha256_hex(b"hello")));
    assert!(matches!(p.on_held_back(true), Step::Rest));
}

#[test]
fn images_that_cannot_be_converted_are_not_sent() {
    let (_, step) = Publication::start("image/jpeg", ImageMode::ForcePng, b"no image".to_vec());
    assert!(matches!(step, Step::Rest));
    let (_, step) = Publication::start("image/jpeg", ImageMode::Passthrough, b"no image".to_vec());
    assert!(matches!(step, Step::IsHeldBack(m, _) if m == "image/jpeg"));
}

#[test]
fn questions_out_of_turn_end_a_publication() {
    let (p, _) = Publication::start(TEXT, ImageMode::ForcePng, b"hello".to_vec());
    let (p, step) = p.on_exist(&vec![true]);
    assert!(matches!(step, Step::Rest));
    assert!(matches!(p.on_held_back(false), Step::Rest));
}

#[test]
fn paths_of_which_nothing_is_said_do_not_exist() {
    let all = paths(&["/a", "/b", "/c"]);
    assert_eq!(existing_of(&all, &vec![true, false]), paths(&["/a"]));
    assert_eq!(existing_of(&all, &vec![true, true, true, true]), all);
}

#[test]
fn a_round_leaves_marked_content_alone() {
    let types = format!("text/plain\n{APPLIED_MARKER_MIME}\n");
    let (_, step) = Round::start(ImageMode::Passthrough).on_types(Some(&types));
    assert!(matches!(step, Step::Rest));
    let (_, step) = Round::start(ImageMode::Passthrough).on_types(None);
    assert!(matches!(step, Step::Read(m) if m == URI_LIST_MIME));
}

#[test]
fn a_round_sends_the_first_list_of_files_and_ends() {
    let poll = Poll::new();
    let l = LIMITS;
    let (r, _) = Round::start(ImageMode::Passthrough).on_types(Some("text/uri-list\n"));
    let (r, step) = r.on_content(&poll, l, Some(Vec::new()));
    assert!(matches!(step, Step::Read(m) if m == KDE_URI_LIST_MIME));
    let (r, step) = r.on_content(&poll, l, Some(b"file:///k\n".to_vec()));
    assert!(matches!(step, Step::SendFiles(ps) if ps == paths(&["/k"])));
    let (_, step) = r.on_content(&poll, l, Some(b"more".to_vec()));
    assert!(matches!(step, Step::Rest));
}

fn to_text(poll: &Poll, mode: ImageMode) -> Round {
    let l = LIMITS;
    let (r, _) = Round::start(mode).on_types(Some(""));
    let (r, _) = r.on_content(poll, l, None);
    let (r, step) = r.on_content(poll, l, None);
    assert!(matches!(step, Step::Read(m) if m == GNOME_COPIED_FILES_MIME));
    let (r, step) = r.on_content(poll, l, None);
    assert!(matches!(step, Step::Read(m) if m == TEXT));
    r
}

#[test]
fn a_round_sends_new_text_and_then_looks_at_images() {
    let mut poll = Poll::new();
    let l = LIMITS;
    let r = to_text(&poll, ImageMode::Passthrough);
    let (r, step) = r.on_content(&poll, l, Some(b"hi".to_vec()));
    assert!(matches!(step, Step::IsHeldBack(m, _) if m == TEXT));
    let (r, step) = r.on_held_back(false);
    assert!(matches!(step, Step::Send(out) if out.bytes == b"hi" && out.mime == TEXT));
    let (r, step) = r.on_sent(&mut poll);
    assert!(matches!(step, Step::Read(m) if m == "image/png"));
    let (r, step) = r.on_content(&poll, l, None);
    assert!(matches!(step, Step::Read(m) if m == "image/jpeg"));
    let (r, step) = r.on_content(&poll, l, Some(b"jpeg".to_vec()));
    assert!(matches!(step, Step::IsHeldBack(m, _) if m == "image/jpeg"));
    let (r, _) = r.on_held_back(false);
    let (r, step) = r.on_sent(&mut poll);
    assert!(matches!(step, Step::Read(m) if m == "image/webp"));
    let (r, _) = r.on_content(&poll, l, None);
    let (_, step) = r.on_content(&poll, l, None);
    assert!(matches!(step, Step::Rest));

    // The next round passes over what was sent.
    let r = to_text(&poll, ImageMode::Passthrough);
    let (r, step) = r.on_content(&poll, l, Some(b"hi".to_vec()));
    assert!(matches!(step, Step::Read(m) if m == "image/png"));
    let (r, _) = r.on_content(&poll, l, None);
    let (_, step) = r.on_content(&poll, l, Some(b"jpeg".to_vec()));
    assert!(matches!(step, Step::Read(m) if m == "image/webp"));
}

#[test]
fn a_round_passes_over_text_beyond_the_limit_and_text_held_back() {
    let poll = Poll::new();
    let l = LIMITS;
    let (_, step) = to_text(&poll, ImageMode::ForcePng).on_content(&poll, l, Some(vec![b'x'; 101]));
    assert!(matches!(step, Step::Read(m) if m == "image/png"));
    let (r, _) = to_text(&poll, ImageMode::ForcePng).on_content(&poll, l, Some(b"hi".to_vec()));
    let (_, step) = r.on_held_back(true);
    assert!(matches!(step, Step::Read(m) if m == "image/png"));
}

#[test]
fn a_round_asks_whether_files_named_in_text_exist() {
    let poll = Poll::new();
    let l = LIMITS;
    let text = b"file:///q\n".to_vec();
    let (r, step) = to_text(&poll, ImageMode::ForcePng).on_content(&poll, l, Some(text.clone()));
    assert!(matches!(step, Step::WhichExist(ps) if ps == paths(&["/q"])));
    let (_, step) = r.on_exist(&poll, l, &vec![true]);
    assert!(matches!(step, Step::SendFiles(ps) if ps == paths(&["/q"])));
    let (r, _) = to_text(&poll, ImageMode::ForcePng).on_content(&poll, l, Some(text.clone()));
    let (_, step) = r.on_exist(&poll, l, &vec![false]);
    assert!(matches!(step, Step::IsHeldBack(_, s) if s == sha256_hex(&text)));
}

#[test]
fn a_png_is_left_to_another_format_that_is_there() {
    let mut poll = Poll::new();
    let l = LIMITS;
    for again in [false, true] {
        let (r, step) = to_text(&poll, ImageMode::MultiMime).on_content(&poll, l, None);
        assert!(matches!(step, Step::Read(m) if m == "image/jpeg"));
        let (r, step) = r.on_content(&poll, l, Some(b"jpeg".to_vec()));
        let (r, step) = if again {
            (r, step)
        } else {
            assert!(matches!(step, Step::IsHeldBack(m, _) if m == "image/jpeg"));
            let (r, _) = r.on_held_back(false);
            r.on_sent(&mut poll)
        };
        assert!(matches!(step, Step::Read(m) if m == "image/webp"));
        let (r, step) = r.on_content(&poll, l, None);
        assert!(matches!(step, Step::Read(m) if m == "image/gif"));
        let (r, step) = r.on_content(&poll, l, None);
        assert!(matches!(step, Step::Read(m) if m == "image/png"));
        let (_, step) = r.on_content(&poll, l, Some(b"png".to_vec()));
        assert!(matches!(step, Step::Rest));
    }
}

#[test]
fn a_png_alone_is_sent_in_every_mode() {
    let poll = Poll::new();
    let l = LIMITS;
    let (mut r, _) = to_text(&poll, ImageMode::MultiMime).on_content(&poll, l, None);
    for big in [None, Some(vec![b'x'; 1001]), Some(Vec::new())] {
        r = r.on_content(&poll, l, big).0;
    }
    let (_, step) = r.on_content(&poll, l, Some(b"png".to_vec()));
    assert!(matches!(step, Step::IsHeldBack(m, s) if m == "image/png" && s == sha256_hex(b"png")));
    let (r, step) = to_text(&poll, ImageMode::SpoofPng).on_content(&poll, l, None);
    assert!(matches!(step, Step::Read(m) if m == "image/png"));
    let (_, step) = r.on_content(&poll, l, Some(b"png".to_vec()));
    assert!(matches!(step, Step::IsHeldBack(m, _) if m == "image/png"));
}

#[test]
fn windows_files_come_before_images_and_text() {
    let (r, ask) = WinRound::start();
    assert!(matches!(ask, Ask::Files));
    let (r, ask) = r.on_files(Some(paths(&["/b", "/a", "/b"])));
    assert!(matches!(ask, Ask::SendFiles(ps) if ps == paths(&["/a", "/b"])));
    let (_, ask) = r.on_files_sent(true);
    assert!(matches!(ask, Ask::HoldTextBack));

    let (r, _) = WinRound::start();
    let (r, _) = r.on_files(Some(paths(&["/a"])));
    let (r, ask) = r.on_files_sent(false);
    assert!(matches!(ask, Ask::Bitmap));
    let (_, ask) = r.on_bitmap(None, 100);
    assert!(matches!(ask, Ask::Text));
}

fn to_windows_text() -> WinRound {
    let (r, _) = WinRound::start();
    let (r, ask) = r.on_files(None);
    assert!(matches!(ask, Ask::Bitmap));
    let (r, ask) = r.on_bitmap(Some(b"no bitmap".to_vec()), 100);
    assert!(matches!(ask, Ask::Text));
    r
}

#[test]
fn windows_text_is_sent_once() {
    let mut seen = WinWatch::new(1);
    let sha = sha256_hex("hällo".as_bytes());
    let (r, ask) = to_windows_text().on_text(Some("hällo"), 6);
    assert!(matches!(ask, Ask::IsKnown(m, s) if m == TEXT && s == sha));
    let (r, ask) = r.on_known(&mut seen, None, false);
    assert!(matches!(ask, Ask::Send(out) if out.bytes == "hällo".as_bytes()));
    r.on_sent(&mut seen);
    assert_eq!(seen.text.as_deref(), Some(sha.as_str()));

    let (r, _) = to_windows_text().on_text(Some("hällo"), 6);
    let (_, ask) = r.on_known(&mut seen, None, false);
    assert!(matches!(ask, Ask::Rest));
    let (_, ask) = to_windows_text().on_text(Some("hällo"), 5);
    assert!(matches!(ask, Ask::Rest));
}

#[test]
fn windows_text_that_another_process_sent_is_not_sent() {
    let mut seen = WinWatch::new(1);
    let sha = sha256_hex(b"x");
    let (r, _) = to_windows_text().on_text(Some("x"), 10);
    let (_, ask) = r.on_known(&mut seen, Some(&sha), false);
    assert!(matches!(ask, Ask::Rest));
    assert_eq!(seen.text, Some(sha));
    let mut fresh = WinWatch::new(1);
    let (r, _) = to_windows_text().on_text(Some("x"), 10);
    let (_, ask) = r.on_known(&mut fresh, None, true);
    assert!(matches!(ask, Ask::Rest));
    assert_eq!(fresh.text, None);
}

#[test]
fn windows_images_are_sent_and_then_make_way_for_text() {
    let dib = multicliprelay::win_image::rgba_to_dibv5(1, 1, &[1, 2, 3, 255]).unwrap();
    let mut seen = WinWatch::new(1);
    let ask_image = || {
        let (r, _) = WinRound::start();
        let (r, _) = r.on_files(None);
        r.on_bitmap(Some(dib.clone()), 100_000)
    };
    let (r, ask) = ask_image();
    assert!(matches!(ask, Ask::IsKnown(m, _) if m == "image/png"));
    let (r, ask) = r.on_known(&mut seen, None, false);
    assert!(matches!(ask, Ask::Send(out) if out.sha == sha256_hex(&out.bytes)));
    r.on_sent(&mut seen);
    assert!(seen.image.is_some());
    let (r, _) = ask_image();
    let (_, ask) = r.on_known(&mut seen, None, false);
    assert!(matches!(ask, Ask::Text));
}

#[test]
fn services_are_started_and_stopped_in_order() {
    assert_eq!(start_order(), [Service::Relay, Service::Apply, Service::Watch]);
    assert_eq!(stop_order(), [Service::Watch, Service::Apply, Service::Relay]);
    assert_eq!(short_name(Service::Watch), "watch");
    assert_eq!(short_name(Service::X11), "x11-sync");
}

#[test]
fn received_files_are_reported() {
    assert_eq!(bundle_line(3, 2048), "received bundle -> 3 item(s) (2048 bytes)");
    assert_eq!(file_line(b"/r/01234567/a", 5), "received file -> /r/01234567/a (5 bytes)");
}

#[test]
fn paths_are_made_of_their_components() {
    for p in ["/", "/a/b", "a/../b", "./x", "..", ""] {
        let cs = parts_of(p.as_bytes());
        assert_eq!(render(&cs), p.as_bytes());
    }
    assert_eq!(render(&parts_of(b"//a//./b/")), b"/a/b");
}

#[test]
fn applied_text_is_not_sent_back() {
    let mut msg = Message::text_at("e".to_string(), 1, "other", "r", "round trip");
    msg.sha256 = Some(sha256_hex(b"round trip"));
    let step = Applier::new().on_message("own", ImageMode::ForcePng, b"/r", &msg);
    let applied = match step {
        multicliprelay::apply::Step::Do(actions) => actions,
        _ => panic!("text is applied"),
    };
    let held = applied.iter().find_map(|a| match a {
        Action::Suppress(key, sha, ttl) => Some((key.clone(), sha.clone(), *ttl)),
        _ => None,
    });
    let (key, sha, ttl) = held.expect("held back");
    let file = marker_text(&sha, 1000, ttl);

    let (p, step) = Publication::start(TEXT, ImageMode::ForcePng, b"round trip".to_vec());
    let (mime, asked) = match step {
        Step::IsHeldBack(mime, sha) => (mime, sha),
        _ => panic!("asked about"),
    };
    assert_eq!(mime, key);
    assert!(is_suppressed(Some(&file), &asked, 3000));
    assert!(!is_suppressed(Some(&file), &asked, 3001));
    assert!(matches!(p.on_held_back(true), Step::Rest));
}

#[test]
fn applied_images_are_not_sent_back() {
    for mode in [ImageMode::Passthrough, ImageMode::SpoofPng, ImageMode::MultiMime] {
        let payload = b"GIF89a".to_vec();
        let sha = sha256_hex(&payload);
        let offer = offer_image(mode, "image/gif", &payload, Some(&sha));
        for item in &offer.items {
            let (_, step) = Publication::start(&item.mime, mode, item.bytes.clone());
            let (mime, asked) = match step {
                Step::IsHeldBack(mime, sha) => (mime, sha),
                _ => panic!("asked about"),
            };
            assert!(offer.marks.iter().any(|m| m.key == mime && m.sha == asked));
        }
    }
}

#[test]
fn received_files_are_not_published() {
    let items = file_items_of("0123456789", "a", b"/r/01234567/a", "file:///r/01234567/a\n");
    let types: String = items.iter().map(|i| format!("{}\n", i.mime)).collect();
    let choice = hook_choice(&types, ImageMode::ForcePng, URI_LIST_MIME);
    assert!(matches!(choice, HookChoice::Marked));
    let (_, step) = Round::start(ImageMode::Passthrough).on_types(Some(&types));
    assert!(matches!(step, Step::Rest));
}

#[test]
fn a_round_ends_after_a_bounded_number_of_answers() {
    let mut poll = Poll::new();
    let l = LIMITS;
    let (mut round, mut step) = Round::start(ImageMode::Passthrough).on_types(None);
    let mut answers = 1;
    while !matches!(step, Step::Rest) {
        (round, step) = match step {
            Step::Read(m) if m.ends_with("list") || m.ends_with("files") => {
                round.on_content(&poll, l, None)
            }
            Step::Read(_) => round.on_content(&poll, l, Some(b"file:///none".to_vec())),
            Step::WhichExist(ps) => round.on_exist(&poll, l, &vec![false; ps.len()]),
            Step::IsHeldBack(_, _) => round.on_held_back(false),
            Step::Send(_) => round.on_sent(&mut poll),
            _ => panic!("no files are there"),
        };
        answers += 1;
    }
    assert_eq!(answers, 20);
}

#[test]
fn keys_of_a_map_are_listed_once() {
    let mut m = TextMap::new();
    m.insert("a", 1);
    m.insert("b", 2);
    m.insert("a", 3);
    let keys: Vec<&str> = (0..m.len()).map(|i| m.key(i)).collect();
    assert_eq!(keys.len(), 2);
    assert!(keys.contains(&"a") && keys.contains(&"b"));
    assert_eq!(m.get("a"), Some(&3));
}

#[test]
fn everything_is_held_back_while_files_are_put_down() {
    let mut keys = Vec::new();
    for a in guard_actions() {
        let Action::Suppress(key, sha, ttl) = a else { panic!("held back") };
        let file = marker_text(&sha, 1000, ttl);
        assert!(is_suppressed(Some(&file), &sha256_hex(b"any"), 2500));
        assert!(!is_suppressed(Some(&file), &sha256_hex(b"any"), 2501));
        keys.push(key);
    }
    assert_eq!(keys, ["application/x-multicliprelay-file", TEXT, "text/plain"]);
}
