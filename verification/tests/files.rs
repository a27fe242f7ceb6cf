use std::io::Read;

use multicliprelay::archive::{
    archive_of, encode_entry, entry_mode_of, list_files_recursively, list_top_level_items,
    plan_tree, Found,
};
use multicliprelay::bundle::{
    bundle_name_at, bundle_name_for, plan_bundle, EntryKind, PathKind,
};
use multicliprelay::files::{
    build_uri_list, collect_clipboard_paths, detect_file_mime, file_mime_of, local_path_of,
    parse_uri_list, uri_list_of, FileUrl,
};
use multicliprelay::message::Kind;
use multicliprelay::send::{
    bundle_message, digest_to_send_of, file_is_sent, file_message, selection_of, sent_name_of, Selection,
};

fn paths(p: &[&str]) -> Vec<Vec<u8>> {
    p.iter().map(|s| s.as_bytes().to_vec()).collect()
}

fn texts(p: &[&str]) -> Vec<String> {
    p.iter().map(|s| s.to_string()).collect()
}

#[test]
fn parse_uri_list_ignores_comments_and_gnome_prefix() {
    let s = b"# comment\ncopy\nfile:///tmp/a.txt\n\nfile:///tmp/b.txt\n";
    let urls = parse_uri_list(s);
    assert_eq!(urls.len(), 2);
    assert_eq!(urls[0].scheme(), "file");
}

#[test]
fn collect_clipboard_paths_accepts_file_host_form() {
    let s = b"file://home/user/a.txt\n";
    let paths = collect_clipboard_paths(s);
    assert_eq!(paths.len(), 1);
    assert_eq!(paths[0], b"/home/user/a.txt");
}

#[test]
fn build_uri_list_does_not_force_trailing_slash_for_dirs() {
    let p = "/tmp/x/d";
    let s = build_uri_list(&texts(&[p]));
    let u = url::Url::from_file_path(p).expect("url");
    assert_eq!(s, format!("{}\n", u.as_str()));
}

#[test]
fn build_uri_list_uses_file_scheme_and_lf() {
    let s = build_uri_list(&texts(&["/tmp/x/a b.txt"]));
    assert!(s.starts_with("file:///"), "uri list should start with file:/// but got: {s:?}");
    assert!(s.ends_with("\n"), "uri list should end with LF but got: {s:?}");
    assert!(
        !s.contains("file:////"),
        "uri list must not contain file://// (too many slashes): {s:?}"
    );
    assert_eq!(s, "file:///tmp/x/a%20b.txt\n");
}

#[test]
fn addresses_are_escaped_as_paths_need_it() {
    for p in ["/", "/a", "/a/b", "/ä/%/#?", "/a//b/./c", "/x y/\"<>`{}", "/a/../b", "relative"] {
        let want = match url::Url::from_file_path(p) {
            Ok(u) => format!("{}\n", u.as_str()),
            Err(()) => String::new(),
        };
        assert_eq!(build_uri_list(&texts(&[p])), want, "{p}");
    }
    assert_eq!(uri_list_of(&vec![Some("a:b".to_string()), None]), "a:b\n");
}

#[test]
fn what_is_written_as_addresses_is_read_as_paths() {
    let list = build_uri_list(&texts(&["/tmp/a b", "/tmp/ü%"]));
    assert_eq!(collect_clipboard_paths(list.as_bytes()), paths(&["/tmp/a b", "/tmp/ü%"]));
}

#[test]
fn other_addresses_are_no_paths() {
    assert_eq!(collect_clipboard_paths(b"http://x/y\nno address\ncut\n"), Vec::<Vec<u8>>::new());
    let u = FileUrl {
        scheme: "file".to_string(),
        host: None,
        path: "/x".to_string(),
        file_path: None,
    };
    assert_eq!(local_path_of(&u), None);
}

#[test]
fn file_types_come_from_content_or_name() {
    let png = b"\x89PNG\r\n\x1a\n\0\0\0\0";
    assert_eq!(detect_file_mime(png, b"/x/a.txt"), "image/png");
    assert_eq!(detect_file_mime(b"hello", b"/x/a.TXT"), "text/plain;charset=utf-8");
    assert_eq!(detect_file_mime(b"hello", b"/x/a.bin"), "application/octet-stream");
    assert_eq!(detect_file_mime(b"hello", b"/x/.md"), "application/octet-stream");
    assert_eq!(file_mime_of(Some("a/b"), b"/x/a.md"), "a/b");
}

#[test]
fn bundles_are_named_after_what_they_hold() {
    assert_eq!(bundle_name_at(&paths(&["/a/b.txt"]), 5), "b.txt.tar");
    assert_eq!(bundle_name_at(&paths(&["/a/b", "/a/c"]), 5), "a.tar");
    assert_eq!(bundle_name_at(&paths(&["/a/b", "/d/c"]), 5), "multicliprelay-bundle-5.tar");
    assert_eq!(bundle_name_at(&paths(&[]), 5), "multicliprelay-bundle-5.tar");
    assert_eq!(bundle_name_at(&paths(&["/"]), 5), "multicliprelay-bundle-5.tar");
    assert_eq!(bundle_name_for(&paths(&["/a/b"])), "b.tar");
}

#[test]
fn files_of_a_tree_keep_their_places() {
    let p = paths(&["/t/folder/a.txt", "/t/folder/sub/b.txt"]);
    let plan = plan_bundle(&p, &vec![PathKind::File, PathKind::File]);
    let got: Vec<(EntryKind, Vec<u8>, Vec<u8>)> =
        plan.into_iter().map(|e| (e.kind, e.fs, e.archive)).collect();
    assert_eq!(
        got,
        vec![
            (EntryKind::Dir, b"/t/folder".to_vec(), b"folder".to_vec()),
            (EntryKind::Dir, b"/t/folder/sub".to_vec(), b"folder/sub".to_vec()),
            (EntryKind::File, b"/t/folder/a.txt".to_vec(), b"folder/a.txt".to_vec()),
            (EntryKind::File, b"/t/folder/sub/b.txt".to_vec(), b"folder/sub/b.txt".to_vec()),
        ]
    );
}

#[test]
fn files_of_one_directory_stand_alone() {
    let p = paths(&["/t/a.txt", "/t/b.txt", "/t/link"]);
    let plan = plan_bundle(&p, &vec![PathKind::File, PathKind::File, PathKind::Other]);
    let got: Vec<Vec<u8>> = plan.into_iter().map(|e| e.archive).collect();
    assert_eq!(got, paths(&["a.txt", "b.txt"]));
}

#[test]
fn directories_go_in_with_what_they_hold() {
    let plan = plan_bundle(&paths(&["/t/a.txt", "/t/sub"]), &vec![PathKind::File, PathKind::Dir]);
    assert_eq!(plan[1].kind, EntryKind::Tree);
    assert_eq!(plan[1].archive, b"sub");
    let found = vec![
        Found { path: b"/t/sub/z".to_vec(), kind: PathKind::File },
        Found { path: b"/t/sub".to_vec(), kind: PathKind::Dir },
        Found { path: b"/t/sub/d".to_vec(), kind: PathKind::Dir },
        Found { path: b"/t/sub/d/x".to_vec(), kind: PathKind::File },
        Found { path: b"/t/sub/sock".to_vec(), kind: PathKind::Other },
    ];
    let tree = plan_tree(b"/t/sub", b"sub", &found);
    let got: Vec<(EntryKind, Vec<u8>)> = tree.into_iter().map(|e| (e.kind, e.archive)).collect();
    assert_eq!(
        got,
        vec![
            (EntryKind::Dir, b"sub".to_vec()),
            (EntryKind::Dir, b"sub/d".to_vec()),
            (EntryKind::File, b"sub/d/x".to_vec()),
            (EntryKind::File, b"sub/z".to_vec()),
        ]
    );
}

#[test]
fn archives_are_read_back() {
    let dir = encode_entry(EntryKind::Dir, "folder", Some(0o40750), 1_700_000_001, b"").expect("dir");
    let file =
        encode_entry(EntryKind::File, "folder/a.txt", None, 1_700_000_000, b"hello").expect("file");
    let bytes = archive_of(&vec![dir, file]);
    assert_eq!(bytes.len() % 512, 0);
    let mut ar = tar::Archive::new(&bytes[..]);
    let mut got = Vec::new();
    for e in ar.entries().expect("entries") {
        let mut e = e.expect("entry");
        let mut data = Vec::new();
        e.read_to_end(&mut data).expect("data");
        let h = e.header();
        got.push((
            e.path_bytes().to_vec(),
            h.entry_type().as_byte(),
            h.mode().expect("mode"),
            h.mtime().expect("mtime"),
            h.uid().expect("uid"),
            data,
        ));
    }
    assert_eq!(
        got,
        vec![
            (b"folder".to_vec(), b'5', 0o750, 1_700_000_001, 0, vec![]),
            (b"folder/a.txt".to_vec(), b'0', 0o644, 1_700_000_000, 0, b"hello".to_vec()),
        ]
    );
}

#[test]
fn names_that_cannot_stand_in_an_archive_are_refused() {
    assert_eq!(encode_entry(EntryKind::File, "../x", None, 0, b""), None);
    assert_eq!(encode_entry(EntryKind::File, &"x".repeat(300), None, 0, b""), None);
}

#[test]
fn names_stand_in_an_archive_where_a_header_has_room() {
    let n = |a: usize| "x".repeat(a);
    for (name, fits) in [
        (n(100), true),
        (n(101), false),
        (format!("{}/{}", n(49), n(50)), true),
        (format!("{}/{}", n(155), n(100)), true),
        (format!("{}/{}", n(156), n(100)), false),
        (format!("{}/{}", n(155), n(101)), false),
        (format!("{}/{}/{}", n(50), n(104), n(100)), true),
        (format!("{}/{}/{}", n(50), n(105), n(50)), false),
        (format!("{}/{}/{}", n(60), n(40), n(59)), true),
        (format!("d/{}", n(100)), true),
    ] {
        let b = encode_entry(EntryKind::File, &name, None, 0, b"hi");
        assert_eq!(b.is_some(), fits, "{name}");
        let Some(b) = b else { continue };
        let archive = archive_of(&vec![b]);
        let mut read = tar::Archive::new(&archive[..]);
        let entry = read.entries().expect("entries").next().expect("one").expect("entry");
        assert_eq!(entry.path_bytes().as_ref(), name.as_bytes());
    }
}

#[test]
fn files_asked_for_by_name_are_sent_up_to_the_limit() {
    assert!(file_is_sent(0, 0));
    assert!(file_is_sent(5, 5));
    assert!(!file_is_sent(6, 5));
}

#[test]
fn modes_are_kept_or_usual() {
    assert_eq!(entry_mode_of(Some(0o100644), EntryKind::File), 0o644);
    assert_eq!(entry_mode_of(Some(0o106755), EntryKind::File), 0o6755);
    assert_eq!(entry_mode_of(None, EntryKind::File), 0o644);
    assert_eq!(entry_mode_of(None, EntryKind::Dir), 0o755);
}

#[test]
fn items_are_listed_in_order_up_to_a_number() {
    let got = list_top_level_items(&paths(&["/d/b", "/d/a", "/d/a-b", "/d/a/c"]), 3);
    assert_eq!(got, paths(&["/d/a", "/d/a/c", "/d/a-b"]));
}

#[test]
fn selections_are_sent_as_file_or_bundle() {
    assert_eq!(selection_of(0, false, false), Selection::Nothing);
    assert_eq!(selection_of(1, true, true), Selection::Nothing);
    assert_eq!(selection_of(1, false, true), Selection::File);
    assert_eq!(selection_of(1, false, false), Selection::Bundle);
    assert_eq!(selection_of(2, false, true), Selection::Bundle);
}

#[test]
fn files_within_the_limit_are_sent() {
    assert_eq!(digest_to_send_of(b"", 10), None);
    assert_eq!(digest_to_send_of(b"abc", 2), None);
    assert_eq!(
        digest_to_send_of(b"hello", 5).as_deref(),
        Some("2cf24dba5fb0a30e26e83b2ac5b9e29e1b161e5c1fa7425e73043362938b9824")
    );
}

#[test]
fn file_messages_name_their_file() {
    assert_eq!(sent_name_of(b"/a/b.txt"), "b.txt");
    assert_eq!(sent_name_of(b"/"), "file");
    assert_eq!(sent_name_of(&[b'/', 0xff]), "file");
    let m = file_message("d", "me", "r", b"/a/b.txt", b"hello".to_vec());
    assert_eq!(m.kind, Kind::File);
    assert_eq!(m.name.as_deref(), Some("b.txt"));
    assert_eq!(m.mime.as_deref(), Some("text/plain;charset=utf-8"));
    assert_eq!(m.sender_name.as_deref(), Some("me"));
    assert_eq!(m.sha256.as_ref().map(|s| s.len()), Some(64));
    let b = bundle_message("d", "", "r", &paths(&["/a/b", "/a/c"]), 9, vec![1]);
    assert_eq!(b.name.as_deref(), Some("a.tar"));
    assert_eq!(b.mime.as_deref(), Some("application/x-tar"));
    assert_eq!(b.sender_name, None);
}

#[test]
fn files_below_a_directory_are_listed_in_order() {
    let found = vec![
        Found { path: b"/d/z".to_vec(), kind: PathKind::File },
        Found { path: b"/d/a".to_vec(), kind: PathKind::Dir },
        Found { path: b"/d/a/f".to_vec(), kind: PathKind::File },
        Found { path: b"/d/link".to_vec(), kind: PathKind::Other },
    ];
    assert_eq!(list_files_recursively(&found, 10), paths(&["/d/a/f", "/d/z"]));
    assert_eq!(list_files_recursively(&found, 1), paths(&["/d/a/f"]));
}

#[test]
fn entries_are_owned_by_number_zero() {
    let b = encode_entry(EntryKind::File, "a/b", Some(0o100640), 8, b"x").expect("fits");
    assert_eq!(b.len(), 1024);
    assert_eq!(&b[..4], b"a/b\0");
    assert_eq!(&b[100..108], b"0000640\0");
    assert_eq!(&b[108..116], b"0000000\0");
    assert_eq!(&b[116..124], b"0000000\0");
    assert_eq!(&b[124..136], b"00000000001\0");
    assert_eq!(&b[136..148], b"00000000010\0");
    assert_eq!(b[156], b'0');
    assert_eq!(b[512], b'x');
}

#[test]
fn lists_are_read_line_by_line() {
    let lists: [&[u8]; 7] = [
        b"",
        b"file:///a\r",
        b"copy\nfile:///b\n",
        b"# no\n\n cut \nnot an address",
        b"file:///c\xff\xe2\x82",
        b"\xf0\x9f",
        b"\xbf\xbf\r\nfile:///d%20e",
    ];
    for a in lists {
        for b in lists {
            let mut both = a.to_vec();
            both.push(b'\n');
            both.extend_from_slice(b);
            let mut want = collect_clipboard_paths(a);
            want.extend(collect_clipboard_paths(b));
            assert_eq!(collect_clipboard_paths(&both), want);
            assert_eq!(parse_uri_list(&both).len(), parse_uri_list(a).len() + parse_uri_list(b).len());
        }
    }
    assert_eq!(collect_clipboard_paths(b"file:///a\n#\nfile:///d%20e"), paths(&["/a", "/d e"]));
}

#[test]
fn lists_of_paths_are_read_back() {
    let names = ["/a", "/", "/a b/c.d", "/...", "/%41#?\\", "/\u{fc}\u{20ac}/\u{1f600}", "/a", "/\ttab\n"];
    let owned: Vec<String> = names.iter().map(|s| s.to_string()).collect();
    let list = build_uri_list(&owned);
    assert_eq!(collect_clipboard_paths(list.as_bytes()), paths(&names));
    let gnome = format!("copy\n{list}");
    assert_eq!(collect_clipboard_paths(gnome.as_bytes()), paths(&names));
    let loose = build_uri_list(&vec!["/a//b/./c/".to_string()]);
    assert_eq!(collect_clipboard_paths(loose.as_bytes()), paths(&["/a/b/c"]));
}
