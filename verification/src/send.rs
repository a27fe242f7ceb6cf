//! Sending files: what a selection of paths is sent as.

use crate::bundle::{bundle_name, bundle_name_at};
use crate::codec::sniffed;
use crate::consts::TAR_MIME;
use crate::files::{detect_file_mime, file_mime};
use crate::frame::{sender_name, sender_name_of};
use crate::hash::{sha256_hex, sha256_text};
use crate::message::{file_view, is_random_id, Message, MessageView};
use crate::path::{last_name_text, last_name_text_of, parts, parts_of};
use vstd::prelude::*;

verus! {

/// What a selection of paths is sent as.
#[derive(Clone, Copy, Debug, PartialEq, Eq, Structural)]
pub enum Selection {
    /// Nothing is sent.
    Nothing,
    /// The one file, as it is.
    File,
    /// A bundle.
    Bundle,
}

/// What a selection is sent as. `held_back` tells that files are held back at the
/// moment; `first_is_file` that the first path leads to a regular file.
pub open spec fn selection(paths: nat, held_back: bool, first_is_file: bool) -> Selection {
    if paths == 0 || held_back {
        Selection::Nothing
    } else if paths == 1 && first_is_file {
        Selection::File
    } else {
        Selection::Bundle
    }
}

/// What a selection is sent as.
pub fn selection_of(paths: usize, held_back: bool, first_is_file: bool) -> (res: Selection)
    ensures
        res == selection(paths as nat, held_back, first_is_file),
{
    if paths == 0 || held_back {
        Selection::Nothing
    } else if paths == 1 && first_is_file {
        Selection::File
    } else {
        Selection::Bundle
    }
}

/// The digest of content that is sent: none where it is empty or too large.
pub open spec fn digest_to_send(bytes: Seq<u8>, max: nat) -> Option<Seq<char>> {
    if bytes.len() == 0 || bytes.len() > max {
        None
    } else {
        Some(sha256_text(bytes))
    }
}

/// The digest of content that is sent.
pub fn digest_to_send_of(bytes: &[u8], max: usize) -> (res: Option<String>)
    ensures
        crate::wire::opt_text(res) == digest_to_send(bytes@, max as nat),
{
    if bytes.len() == 0 || bytes.len() > max {
        None
    } else {
        Some(sha256_hex(bytes))
    }
}

/// Whether a file of a length is sent when it is asked for by name. An empty one is.
pub fn file_is_sent(len: usize, max: usize) -> (res: bool)
    ensures
        res == (len <= max),
{
    len <= max
}

/// The name under which a file is sent.
pub open spec fn sent_name(path: Seq<u8>) -> Seq<char> {
    match last_name_text(parts(path)) {
        Some(n) => n,
        None => "file"@,
    }
}

/// The name under which a file is sent.
pub fn sent_name_of(path: &[u8]) -> (res: String)
    ensures
        res@ == sent_name(path@),
{
    match last_name_text_of(&parts_of(path)) {
        Some(n) => n,
        None => "file".to_string(),
    }
}

/// A file message with its sender's name and its digest.
pub open spec fn signed_file(m: MessageView, device_name: Seq<char>) -> MessageView {
    MessageView {
        sender_name: sender_name(device_name),
        sha256: Some(sha256_text(m.payload->0)),
        ..m
    }
}

fn sign(m: Message, device_name: &str, sha: String) -> (res: Message)
    requires
        m.payload is Some,
        sha@ == sha256_text(m.payload->0@),
    ensures
        res@ == signed_file(m@, device_name@),
{
    let mut m = m;
    m.sender_name = sender_name_of(device_name);
    m.sha256 = Some(sha);
    m
}

/// The message for one file.
pub fn file_message(device_id: &str, device_name: &str, room: &str, path: &[u8], bytes: Vec<u8>) -> (res:
    Message)
    ensures
        is_random_id(res.event_id@),
        res@ == signed_file(
            file_view(
                res.event_id@,
                res.ts,
                device_id@,
                room@,
                sent_name(path@),
                file_mime(sniffed(bytes@), path@),
                bytes@,
            ),
            device_name@,
        ),
{
    let name = sent_name_of(path);
    let mime = detect_file_mime(bytes.as_slice(), path);
    let sha = sha256_hex(bytes.as_slice());
    let m = Message::new_file(device_id, room, name.as_str(), mime.as_str(), bytes);
    sign(m, device_name, sha)
}

/// The message for a bundle of paths, named for the time `now`.
pub fn bundle_message(
    device_id: &str,
    device_name: &str,
    room: &str,
    paths: &Vec<Vec<u8>>,
    now: u64,
    archive: Vec<u8>,
) -> (res: Message)
    ensures
        is_random_id(res.event_id@),
        res@ == signed_file(
            file_view(
                res.event_id@,
                res.ts,
                device_id@,
                room@,
                bundle_name(paths.deep_view(), now),
                TAR_MIME@,
                archive@,
            ),
            device_name@,
        ),
{
    let name = bundle_name_at(paths, now);
    let sha = sha256_hex(archive.as_slice());
    let m = Message::new_file(device_id, room, name.as_str(), TAR_MIME, archive);
    sign(m, device_name, sha)
}

/// What was selected and is not held back is sent: one file as it is, everything else as a
/// bundle.
pub proof fn law_a_selection_is_sent(paths: nat, first_is_file: bool)
    requires
        paths > 0,
    ensures
        selection(paths, false, first_is_file) != Selection::Nothing,
        selection(paths, false, first_is_file) == Selection::File <==> paths == 1 && first_is_file,
        selection(paths, true, first_is_file) == Selection::Nothing,
        selection(0, false, first_is_file) == Selection::Nothing,
{
}

/// Content within the limit is sent under its own digest, unless it is empty.
pub proof fn law_content_within_the_limit_is_sent(bytes: Seq<u8>, max: nat)
    ensures
        0 < bytes.len() <= max ==> digest_to_send(bytes, max) == Some(sha256_text(bytes)),
        bytes.len() == 0 || bytes.len() > max ==> digest_to_send(bytes, max) is None,
{
}

/// A file is sent under the name that it has in its directory.
pub proof fn law_files_are_sent_under_their_names(dir: Seq<u8>, name: Seq<char>)
    requires
        crate::path::is_name(vstd::utf8::encode_utf8(name)),
    ensures
        sent_name(crate::path::joined(dir, vstd::utf8::encode_utf8(name))) == name,
{
    let n = vstd::utf8::encode_utf8(name);
    crate::path::law_name_lies_in_its_directory(dir, n);
    vstd::utf8::encode_utf8_valid_utf8(name);
    vstd::utf8::encode_utf8_decode_utf8(name);
    let c = parts(crate::path::joined(dir, n));
    assert(c.last() == crate::path::PartView::Name(n));
}

/// Signing a file adds the sender's name and the digest of the bytes that are sent; what is
/// sent stays as it was.
pub proof fn law_signing_keeps_the_file(m: MessageView, name: Seq<char>, bytes: Seq<u8>)
    requires
        m.payload == Some(bytes),
    ensures
        ({
            let s = signed_file(m, name);
            &&& s.payload == Some(bytes)
            &&& s.sha256 == Some(sha256_text(bytes))
            &&& s.sender_name == sender_name(name)
            &&& s.kind == m.kind && s.room == m.room && s.device_id == m.device_id && s.mime
                == m.mime && s.event_id == m.event_id && s.ts == m.ts && s.name == m.name && s.size
                == m.size
        }),
{
}

} // verus!
