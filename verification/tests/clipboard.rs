use multicliprelay::apply::{
    file_is_nameable, guard_actions, offer_image, text_offer_of, Applier, Step,
};
use multicliprelay::clip::{target_of, Action, Item, Target};
use multicliprelay::hash::sha256_hex;
use multicliprelay::image_mode::ImageMode;
use multicliprelay::message::{Kind, Message};
use multicliprelay::received::{bundle_items_of, expose, file_items_of, spare_place};
use multicliprelay::watch::{
    choose_mime, content_message, file_list, hook_cap_of, hook_choice, is_marked, limit_of,
    outgoing_of, parse_watch_mode, png_yields_to_other, prepare, publish_mime_of, publishable,
    unique_paths, watch_mimes, HookChoice, Intake, Poll, WatchMode,
};

fn gif() -> Vec<u8> {
    let img = image::RgbaImage::from_pixel(2, 1, image::Rgba([255, 0, 0, 255]));
    let mut out = std::io::Cursor::new(Vec::new());
    image::DynamicImage::ImageRgba8(img)
        .write_to(&mut out, image::ImageFormat::Gif)
        .expect("gif");
    out.into_inner()
}

fn text(device: &str, sha: Option<&str>) -> Message {
    let mut m = Message::text_at("i".to_string(), 1, device, "r", "hi");
    m.sha256 = sha.map(|s| s.to_string());
    m
}

fn lines(a: &[Action]) -> Vec<String> {
    a.iter()
        .map(|a| match a {
            Action::Copy(items) => format!(
                "copy {}",
                items.iter().map(|i| i.mime.clone()).collect::<Vec<_>>().join(",")
            ),
            Action::Record => "record".to_string(),
            Action::Suppress(k, s, t) => format!("suppress {k} {s} {t}"),
            Action::Say(l) => l.clone(),
        })
        .collect()
}

fn done(s: Step) -> Vec<String> {
    match s {
        Step::Do(a) => lines(&a),
        Step::Nothing => vec!["nothing".to_string()],
        Step::File(_) => vec!["file".to_string()],
    }
}

#[test]
fn own_messages_are_ignored() {
    let mut a = Applier::new();
    let s = a.on_message("me", ImageMode::ForcePng, b"/r", &text("me", Some("s")));
    assert_eq!(done(s), vec!["nothing"]);
}

#[test]
fn text_is_applied_once() {
    let mut a = Applier::new();
    let m = text("other", Some("s"));
    let first = a.on_message("me", ImageMode::ForcePng, b"/r", &m);
    assert_eq!(
        done(first),
        vec![
            "copy text/plain;charset=utf-8",
            "record",
            "suppress text/plain;charset=utf-8 s 2000",
            "applied text (2 bytes)",
        ]
    );
    let again = a.on_message("me", ImageMode::ForcePng, b"/r", &m);
    assert_eq!(done(again), vec!["nothing"]);
    let other = a.on_message("me", ImageMode::ForcePng, b"/r", &text("other", Some("t")));
    assert_eq!(done(other).len(), 4);
    let unsigned = a.on_message("me", ImageMode::ForcePng, b"/r", &text("other", None));
    assert_eq!(done(unsigned).len(), 3);
}

#[test]
fn messages_without_payload_do_nothing() {
    let mut a = Applier::new();
    let mut m = text("other", Some("s"));
    m.payload = None;
    assert_eq!(done(a.on_message("me", ImageMode::ForcePng, b"/r", &m)), vec!["nothing"]);
    let mut j = text("other", Some("s"));
    j.kind = Kind::Join;
    assert_eq!(done(a.on_message("me", ImageMode::ForcePng, b"/r", &j)), vec!["nothing"]);
}

#[test]
fn images_are_offered_as_the_mode_says() {
    let g = gif();
    let force = offer_image(ImageMode::ForcePng, "image/gif", &g, Some("s"));
    assert_eq!(force.items.len(), 1);
    assert_eq!(force.items[0].mime, "image/png");
    assert_eq!(&force.items[0].bytes[1..4], b"PNG");
    let pass = offer_image(ImageMode::Passthrough, "image/gif", &g, Some("s"));
    assert_eq!(pass.items[0].mime, "image/gif");
    assert_eq!(pass.items[0].bytes, g);
    let multi = offer_image(ImageMode::MultiMime, "image/gif", &g, Some("s"));
    assert_eq!(multi.items.len(), 2);
    assert_eq!(multi.marks.len(), 2);
    assert_eq!(multi.marks[1].sha, sha256_hex(&multi.items[1].bytes));
    assert_eq!(multi.say, "applied multi-mime image/gif (+png fallback)");
    let spoof = offer_image(ImageMode::SpoofPng, "image/gif", &g, Some("s"));
    assert_eq!(spoof.items[0].mime, "image/png");
    assert_eq!(spoof.items[0].bytes, g);
    let broken = offer_image(ImageMode::ForcePng, "image/gif", b"nope", None);
    assert_eq!(broken.items[0].mime, "image/gif");
    assert_eq!(broken.items[0].bytes, b"nope");
}

#[test]
fn image_messages_are_applied_once() {
    let mut a = Applier::new();
    let mut m = text("other", Some("s"));
    m.kind = Kind::Image;
    m.mime = Some("image/png".to_string());
    m.payload = Some(gif());
    let first = a.on_message("me", ImageMode::Passthrough, b"/r", &m);
    assert_eq!(done(first)[..2], ["record".to_string(), "copy image/png".to_string()]);
    let again = a.on_message("me", ImageMode::Passthrough, b"/r", &m);
    assert_eq!(done(again), vec!["nothing"]);
}

#[test]
fn text_offers_plain_text() {
    let o = text_offer_of(b"hi", None);
    assert_eq!(o.items[0].mime, "text/plain;charset=utf-8");
    assert!(o.marks.is_empty());
    assert_eq!(o.say, "applied text (2 bytes)");
}

fn file_message(name: Option<&str>, sha: &str) -> Message {
    let mut m = text("other", Some(sha));
    m.kind = Kind::File;
    m.mime = Some("application/octet-stream".to_string());
    m.name = name.map(|s| s.to_string());
    m
}

#[test]
fn files_get_a_place_of_their_own() {
    let mut a = Applier::new();
    let m = file_message(Some("x y.bin"), "0123456789ab");
    let s = a.on_message("me", ImageMode::ForcePng, b"/r", &m);
    let Step::File(job) = s else { panic!("file") };
    assert!(!job.is_bundle);
    assert_eq!(job.out_dir, b"/r/01234567");
    assert_eq!(job.out_path, b"/r/01234567/x_y.bin");
    assert!(matches!(a.on_file_applied(&job.sha), Action::Suppress(k, s, 2000)
        if k == "application/x-multicliprelay-file" && s == "0123456789ab"));
    let again = a.on_message("me", ImageMode::ForcePng, b"/r", &m);
    assert_eq!(done(again), vec!["record"]);
}

#[test]
fn archives_get_a_directory_of_their_own() {
    let mut a = Applier::new();
    let m = file_message(Some("my dir.tar"), "0123456789ab");
    let Step::File(job) = a.on_message("me", ImageMode::ForcePng, b"/r", &m) else {
        panic!("file")
    };
    assert!(job.is_bundle);
    assert_eq!(job.out_dir, b"/r/01234567_my_dir");
    assert_eq!(job.wrapper, "my dir");
    assert!(!job.generic);
    let two = vec![b"/r/01234567_my_dir/a".to_vec(), b"/r/01234567_my_dir/b".to_vec()];
    let e = expose(&job, &two);
    assert_eq!(e.paths, vec![b"/r/01234567_my_dir/my dir".to_vec()]);
    assert_eq!(e.moves.len(), 2);
    assert_eq!(e.moves[0].to, b"/r/01234567_my_dir/my dir/a");
    let one = expose(&job, &two[..1].to_vec());
    assert_eq!(one.paths, two[..1].to_vec());
    assert_eq!(one.plain, "a");
    let none = expose(&job, &vec![]);
    assert_eq!(none.paths, vec![b"/r/01234567_my_dir".to_vec()]);
    let g = file_message(Some("multicliprelay-bundle-7.tar"), "0123456789ac");
    let Step::File(gjob) = a.on_message("me", ImageMode::ForcePng, b"/r", &g) else {
        panic!("file")
    };
    assert!(gjob.generic);
    assert_eq!(expose(&gjob, &two).paths, two);
}

#[test]
fn digests_that_cannot_be_cut_are_known() {
    assert!(file_is_nameable(&file_message(None, "0123456789")));
    assert!(!file_is_nameable(&file_message(None, "short")));
    assert!(file_is_nameable(&file_message(Some("n"), "short")));
    assert!(!file_is_nameable(&file_message(Some("n"), "1234567é")));
    let mut m = file_message(None, "x");
    m.sha256 = None;
    assert!(file_is_nameable(&m));
}

#[test]
fn received_files_are_marked() {
    let b = bundle_items_of("s", "n.tar", "n", "file:///x\n");
    assert!(b.iter().any(|i| i.mime == "application/x-multicliprelay-applied"));
    assert!(b
        .iter()
        .any(|i| i.mime == "x-special/gnome-copied-files" && i.bytes == b"copy\nfile:///x\n"));
    let f = file_items_of("s", "n", b"/x/n", "file:///x/n\n");
    assert_eq!(f[0].bytes, b"/x/n");
    assert_eq!(
        f.last().map(|i| i.bytes.clone()),
        Some(b"applied\nkind=file\nsha=s\nname=n\n".to_vec())
    );
    assert_eq!(target_of(&b), Target::Regular);
    assert_eq!(spare_place(b"/w", b"a", 5), b"/w/a_5");
}

#[test]
fn plain_text_goes_to_both_clipboards() {
    assert_eq!(target_of(&vec![Item::text("text/plain", "x")]), Target::Both);
    assert_eq!(
        target_of(&vec![Item::text("text/plain", "x"), Item::new("image/png", b"p")]),
        Target::Regular
    );
}

#[test]
fn changes_are_held_back_while_files_are_put_there() {
    assert_eq!(
        lines(&guard_actions()),
        vec![
            "suppress application/x-multicliprelay-file * 1500",
            "suppress text/plain;charset=utf-8 * 1500",
            "suppress text/plain * 1500",
        ]
    );
}

#[test]
fn the_preferred_type_is_published() {
    let types = "text/plain\nimage/jpeg\n image/png \n";
    assert_eq!(choose_mime(types, ImageMode::ForcePng), Some("image/png"));
    assert_eq!(choose_mime(types, ImageMode::MultiMime), Some("image/jpeg"));
    assert_eq!(choose_mime("text/uri-list\nimage/png", ImageMode::ForcePng), Some("text/uri-list"));
    assert_eq!(
        choose_mime("text/plain\ntext/plain;charset=utf-8", ImageMode::ForcePng),
        Some("text/plain;charset=utf-8")
    );
    assert_eq!(choose_mime("STRING", ImageMode::ForcePng), None);
}

#[test]
fn one_hook_publishes() {
    let types = "text/plain\nimage/png\n";
    let n = watch_mimes()
        .into_iter()
        .filter(|m| matches!(hook_choice(types, ImageMode::ForcePng, m), HookChoice::Publish(_)))
        .count();
    assert_eq!(n, 1);
    assert!(matches!(
        hook_choice(types, ImageMode::ForcePng, "text/plain"),
        HookChoice::OtherPreferred("image/png")
    ));
    assert!(matches!(
        hook_choice("", ImageMode::ForcePng, "text/plain"),
        HookChoice::NothingOffered
    ));
    let marked = "image/png\napplication/x-multicliprelay-applied\n";
    assert!(matches!(hook_choice(marked, ImageMode::ForcePng, "image/png"), HookChoice::Marked));
    assert!(is_marked(marked));
    assert!(!is_marked(types));
}

#[test]
fn content_past_the_limit_is_thrown_away() {
    let mut i = Intake::new(4);
    i.take(b"ab");
    i.take(b"cd");
    assert_eq!(i.finish(), Some(b"abcd".to_vec()));
    let mut j = Intake::new(4);
    j.take(b"abcde");
    j.take(b"");
    assert_eq!(j.finish(), None);
    assert_eq!(hook_cap_of("image/png", 1, 2, 3), 2);
    assert_eq!(hook_cap_of("text/plain", 1, 2, 3), 3);
    assert_eq!(limit_of(Some("12"), 5), 12);
    assert_eq!(limit_of(Some("x"), 5), 5);
    assert_eq!(limit_of(None, 5), 5);
}

#[test]
fn content_is_sent_as_the_mode_says() {
    let o = prepare("image/gif", ImageMode::ForcePng, gif()).expect("png");
    assert_eq!(o.mime, "image/png");
    assert_eq!(&o.bytes[1..4], b"PNG");
    assert_eq!(o.sha, sha256_hex(&o.bytes));
    assert!(prepare("image/gif", ImageMode::ForcePng, b"nope".to_vec()).is_none());
    let p = outgoing_of("image/gif", ImageMode::Passthrough, b"x".to_vec(), None).expect("as is");
    assert_eq!(p.mime, "image/gif");
    let t = prepare("text/plain", ImageMode::ForcePng, b"x".to_vec()).expect("text");
    assert_eq!(t.mime, "text/plain");
    let m = content_message("d", "me", "r", t);
    assert_eq!(m.kind, Kind::Text);
    assert_eq!(m.mime.as_deref(), Some("text/plain;charset=utf-8"));
    assert_eq!(m.payload.as_deref(), Some(b"x".as_slice()));
    assert_eq!(m.size, 1);
    let i = content_message("d", "", "r", p);
    assert_eq!(i.kind, Kind::Image);
    assert_eq!(i.sender_name, None);
}

#[test]
fn content_within_its_limit_is_published() {
    assert!(!publishable("text/plain", 0, 9, 9));
    assert!(publishable("text/plain", 9, 9, 1));
    assert!(!publishable("text/plain", 10, 9, 99));
    assert!(!publishable("image/png", 10, 99, 9));
    assert!(publishable("other/x", 100, 9, 9));
    assert!(file_list("text/uri-list"));
    assert!(!file_list("text/plain"));
}

#[test]
fn auto_stands_for_the_preferred_type() {
    let m = ImageMode::ForcePng;
    assert_eq!(publish_mime_of("image/png", None, m, None).as_deref(), Some("image/png"));
    assert_eq!(publish_mime_of("auto", Some("image/png"), m, None).as_deref(), Some("image/png"));
    assert_eq!(publish_mime_of("auto", None, m, None), None);
    assert_eq!(publish_mime_of("auto", Some("image/png"), m, Some("text/plain")), None);
    let marked = "text/plain\napplication/x-multicliprelay-applied\n";
    assert_eq!(publish_mime_of("auto", Some(marked), m, None), None);
    assert_eq!(publish_mime_of("auto", Some(marked), m, Some("text/plain")), None);
    assert_eq!(publish_mime_of("text/plain", Some(marked), m, None).as_deref(), Some("text/plain"));
    let sync = "application/x-multicliprelay-x11-sync";
    assert_eq!(publish_mime_of("auto", Some(sync), m, None), None);
    assert_eq!(publish_mime_of("auto", Some(sync), m, Some(sync)), None);
    assert!(png_yields_to_other("image/png", ImageMode::MultiMime, "image/png\nimage/gif"));
    assert!(!png_yields_to_other("image/png", m, "image/png\nimage/gif"));
}

#[test]
fn polling_sends_what_is_new() {
    let mut p = Poll::new();
    let sha = p.text(b"hi", 10).expect("new");
    assert_eq!(sha, sha256_hex(b"hi"));
    p.text_sent(&sha);
    assert_eq!(p.text(b"hi", 10), None);
    assert_eq!(p.text(b"", 10), None);
    assert_eq!(p.text(b"long text", 3), None);
    assert!(p.text(b"ho", 10).is_some());
    let o = p.image("image/gif", gif(), 9999, ImageMode::Passthrough, false).expect("new");
    p.image_sent(&o.mime, &o.sha);
    assert!(p.image("image/gif", gif(), 9999, ImageMode::Passthrough, false).is_none());
    assert!(p.image("image/gif", gif(), 9999, ImageMode::ForcePng, false).is_some());
    assert!(p.image("image/png", gif(), 9999, ImageMode::MultiMime, true).is_none());
    assert!(p.image("image/png", gif(), 9999, ImageMode::MultiMime, false).is_some());
}

#[test]
fn watch_modes_have_names() {
    assert_eq!(parse_watch_mode("watch"), Ok(WatchMode::Watch));
    assert_eq!(parse_watch_mode("poll"), Ok(WatchMode::Poll));
    assert_eq!(
        parse_watch_mode("x"),
        Err("invalid --mode x, expected watch|poll".to_string())
    );
}

#[test]
fn paths_are_listed_once_and_in_order() {
    let got = unique_paths(&vec![b"/b".to_vec(), b"/a".to_vec(), b"/b/".to_vec(), b"/a/c".to_vec()]);
    assert_eq!(got.len(), 3);
    assert_eq!(got[0], b"/a");
    assert_eq!(got[1], b"/a/c");
}

#[test]
fn repeated_files_are_taken_whatever_their_digest() {
    let mut a = Applier::new();
    let short = file_message(None, "short");
    assert!(!a.takes("me", &short));
    assert!(a.takes("other", &short));
    assert!(a.takes("me", &text("other", Some("short"))));
    a.on_file_applied("short");
    assert!(a.takes("me", &short));
    assert_eq!(done(a.on_message("me", ImageMode::ForcePng, b"/r", &short)), vec!["record"]);
}
