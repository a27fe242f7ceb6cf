//! The sync between X11 and Wayland by polling: one image type or the text, and digests in
//! the sync's state that keep content from going round in a circle.

use crate::apply::{opt_str, TEXT_MIME};
use crate::bytes::{lossy, lossy_text};
use crate::consts::{
    APPLIED_MARKER_MIME, GNOME_COPIED_FILES_MIME, KDE_URI_LIST_MIME, URI_LIST_MIME,
};
use crate::dedup::{last_sent, read_last_sent};
use crate::hash::{sha256_hex, sha256_text};
use crate::number::{decimal, number, parse, print};
use crate::suppress::expiry;
use crate::text::{any_line, contains, has_line, has_text, same};
use crate::wire::opt_text;
use crate::x11_sync::{looks_like_file_uri_list_text, names_files};
use vstd::prelude::*;

verus! {

/// Where the time is kept until which text is not brought over.
pub const PAUSE_TEXT_SYNC_KEY: &'static str = "pause_text_sync";

/// The image type to read, if one is named.
pub open spec fn image_type(targets: Seq<char>) -> Option<Seq<char>> {
    if has_text(targets, "image/png"@) {
        Some("image/png"@)
    } else if has_text(targets, "image/jpeg"@) {
        Some("image/jpeg"@)
    } else if has_text(targets, "image/gif"@) {
        Some("image/gif"@)
    } else {
        None
    }
}

/// The image type to read, if one is named.
pub fn pick_x11_image_type(targets: &str) -> (res: Option<&'static str>)
    ensures
        opt_str(res) == image_type(targets@),
{
    if contains(targets, "image/png") {
        Some("image/png")
    } else if contains(targets, "image/jpeg") {
        Some("image/jpeg")
    } else if contains(targets, "image/gif") {
        Some("image/gif")
    } else {
        None
    }
}

/// A read of the X11 clipboard.
#[derive(Clone, Copy, Debug, PartialEq, Eq, Structural)]
pub enum Read {
    /// The image, in the type that is named.
    Image,
    /// The text in UTF-8.
    Utf8,
    /// The text in the old type.
    Plain,
}

/// The first read, given the types on offer: text is tried only where no image type is named.
pub open spec fn first_read(targets: Seq<char>) -> Read {
    if image_type(targets) is Some {
        Read::Image
    } else {
        Read::Utf8
    }
}

/// The next read where one has failed: the old type of text stands in for UTF-8.
pub open spec fn read_after(failed: Read) -> Option<Read> {
    if failed == Read::Utf8 {
        Some(Read::Plain)
    } else {
        None
    }
}

/// The type in which a read asks for the content.
pub open spec fn read_type(read: Read, targets: Seq<char>) -> Seq<char> {
    match read {
        Read::Image => match image_type(targets) {
            Some(t) => t,
            None => "image/png"@,
        },
        Read::Utf8 => "UTF8_STRING"@,
        Read::Plain => "STRING"@,
    }
}

/// The first read, given the types on offer.
pub fn first_read_of(targets: &str) -> (res: Read)
    ensures
        res == first_read(targets@),
{
    match pick_x11_image_type(targets) {
        Some(_) => Read::Image,
        None => Read::Utf8,
    }
}

/// The next read where one has failed.
pub fn read_after_of(failed: Read) -> (res: Option<Read>)
    ensures
        res == read_after(failed),
{
    match failed {
        Read::Utf8 => Some(Read::Plain),
        _ => None,
    }
}

/// The type in which a read asks for the content.
pub fn read_type_of(read: Read, targets: &str) -> (res: &'static str)
    ensures
        res@ == read_type(read, targets@),
{
    match read {
        Read::Image => match pick_x11_image_type(targets) {
            Some(t) => t,
            None => "image/png",
        },
        Read::Utf8 => "UTF8_STRING",
        Read::Plain => "STRING",
    }
}

/// What is kept to pause the sync of text at `now`, for `ttl` milliseconds.
pub fn pause_text(now: u64, ttl: u64) -> (res: String)
    ensures
        res@ == decimal(expiry(now, ttl) as nat),
{
    print(now.saturating_add(ttl) as u128)
}

/// The sync of text is paused at `now`, given what is kept.
pub open spec fn is_paused(kept: Option<Seq<char>>, now: u64) -> bool {
    match kept {
        Some(file) => match last_sent(file) {
            Some(s) => now <= match number(s, u64::MAX as nat) {
                Some(n) => n,
                None => 0,
            },
            None => false,
        },
        None => false,
    }
}

/// Whether the sync of text is paused at `now`, given what is kept.
pub fn is_text_sync_paused(kept: Option<&str>, now: u64) -> (res: bool)
    ensures
        res == is_paused(opt_str(kept), now),
{
    let file = match kept {
        Some(f) => f,
        None => return false,
    };
    match read_last_sent(file) {
        Some(s) => {
            let until: u64 = match parse(s.as_str(), u64::MAX) {
                Some(n) => n,
                None => 0,
            };
            now <= until
        },
        None => false,
    }
}

/// A pause holds until its time and no longer.
pub proof fn law_pause_holds_until_its_time(set_at: u64, ttl: u64, now: u64)
    ensures
        is_paused(Some(decimal(expiry(set_at, ttl) as nat)), now) <==> now <= expiry(set_at, ttl),
{
    let d = decimal(expiry(set_at, ttl) as nat);
    crate::number::law_print_then_parse(expiry(set_at, ttl) as nat, u64::MAX as nat);
    crate::number::lemma_decimal(expiry(set_at, ttl) as nat);
    assert(!crate::text::is_white(d[0]) && !crate::text::is_white(d.last()));
    crate::text::lemma_trimmed(d);
}

/// The most that a hook takes of a kind.
pub open spec fn hook_limit(kind: Seq<char>) -> nat {
    if kind == "text"@ {
        1048576
    } else {
        20971520
    }
}

/// The keys under which a hook keeps the digests of a kind, and the type it copies to.
pub open spec fn hook_keys(kind: Seq<char>) -> Option<(Seq<char>, Seq<char>, Seq<char>)> {
    if kind == "text"@ {
        Some(("UTF8_STRING"@, "wl_text_hash"@, "x11_text_hash"@))
    } else if kind == "image"@ {
        Some(("image/png"@, "wl_img_hash"@, "x11_img_hash"@))
    } else {
        None
    }
}

/// Content to be copied to X11, and the keys under which its digest is kept.
pub struct HookCopy {
    pub mime: &'static str,
    pub wl_key: &'static str,
    pub x11_key: &'static str,
    pub sha: String,
}

/// The key under which the digest is kept of the content of a kind that X11 holds.
pub fn hook_key(kind: &str) -> (res: Option<&'static str>)
    ensures
        opt_str(res) == match hook_keys(kind@) {
            Some(k) => Some(k.2),
            None => None,
        },
{
    if same(kind, "text") {
        Some("x11_text_hash")
    } else if same(kind, "image") {
        Some("x11_img_hash")
    } else {
        None
    }
}

/// A hook copies content of a kind to X11, given the digest that is kept under the kind's key.
pub open spec fn hook_copies(kind: Seq<char>, bytes: Seq<u8>, last: Option<Seq<char>>) -> bool {
    bytes.len() <= hook_limit(kind) && hook_keys(kind) is Some && last != Some(sha256_text(bytes))
}

/// What a hook copies to X11: nothing where the content is too large, is of no known kind,
/// or is what X11 held last. `last` is what is kept under the kind's key.
pub fn hook_copy(kind: &str, bytes: &[u8], last: Option<&str>) -> (res: Option<HookCopy>)
    ensures
        res is Some <==> hook_copies(kind@, bytes@, opt_str(last)),
        match res {
            Some(c) => {
                &&& hook_keys(kind@) == Some((c.mime@, c.wl_key@, c.x11_key@))
                &&& c.sha@ == sha256_text(bytes@)
            },
            None => true,
        },
{
    let limit: usize = if same(kind, "text") {
        1048576
    } else {
        20971520
    };
    if bytes.len() > limit {
        return None;
    }
    let sha = sha256_hex(bytes);
    if let Some(l) = last {
        if same(l, sha.as_str()) {
            return None;
        }
    }
    if same(kind, "text") {
        Some(
            HookCopy {
                mime: "UTF8_STRING",
                wl_key: "wl_text_hash",
                x11_key: "x11_text_hash",
                sha,
            },
        )
    } else if same(kind, "image") {
        Some(
            HookCopy {
                mime: "image/png",
                wl_key: "wl_img_hash",
                x11_key: "x11_img_hash",
                sha,
            },
        )
    } else {
        None
    }
}

/// Content that is brought to Wayland.
#[verifier::ext_equal]
pub struct BroughtView {
    /// The type that it has there.
    pub mime: Seq<char>,
    /// The keys under which its digest is kept.
    pub x11_key: Seq<char>,
    pub wl_key: Seq<char>,
    pub sha: Seq<char>,
    /// The X11 clipboard is cleared, so that Wayland alone holds the content.
    pub clears_x11: bool,
}

/// Content that is brought to Wayland.
#[derive(Debug)]
pub struct Brought {
    pub mime: &'static str,
    pub x11_key: &'static str,
    pub wl_key: &'static str,
    pub sha: String,
    pub clears_x11: bool,
}

impl View for Brought {
    type V = BroughtView;

    open spec fn view(&self) -> BroughtView {
        BroughtView {
            mime: self.mime@,
            x11_key: self.x11_key@,
            wl_key: self.wl_key@,
            sha: self.sha@,
            clears_x11: self.clears_x11,
        }
    }
}

/// What may be brought.
pub open spec fn brought(b: Option<Brought>) -> Option<BroughtView> {
    match b {
        Some(b) => Some(b@),
        None => None,
    }
}

/// An image of a type, as it is brought.
pub open spec fn brought_image(mime: Seq<char>, bytes: Seq<u8>) -> BroughtView {
    BroughtView {
        mime,
        x11_key: "x11_img_hash"@,
        wl_key: "wl_img_hash"@,
        sha: sha256_text(bytes),
        clears_x11: true,
    }
}

/// A text, as it is brought.
pub open spec fn brought_text(bytes: Seq<u8>) -> BroughtView {
    BroughtView {
        mime: TEXT_MIME@,
        x11_key: "x11_text_hash"@,
        wl_key: "wl_text_hash"@,
        sha: sha256_text(bytes),
        clears_x11: false,
    }
}

/// What is brought keeps its digest under the key that the hook for its kind looks at: the
/// hook does not copy it back.
pub proof fn law_brought_content_is_not_copied_back(mime: Seq<char>, bytes: Seq<u8>)
    ensures
        hook_keys("image"@) matches Some(k) && k.2 == brought_image(mime, bytes).x11_key,
        hook_keys("text"@) matches Some(k) && k.2 == brought_text(bytes).x11_key,
        !hook_copies("image"@, bytes, Some(brought_image(mime, bytes).sha)),
        !hook_copies("text"@, bytes, Some(brought_text(bytes).sha)),
{
    reveal_strlit("image");
    reveal_strlit("text");
    assert("image"@.len() != "text"@.len());
}

/// The digests of what was brought from X11 last.
pub struct Poller {
    last_text: Option<String>,
    last_image: Option<String>,
}

/// What the text is to be held against before it is brought over.
pub open spec fn text_is_held(
    text: Seq<u8>,
    max: nat,
    pause: Option<Seq<char>>,
    now: u64,
    wl_types: Seq<char>,
) -> bool {
    ||| text.len() == 0
    ||| text.len() > max
    ||| is_paused(pause, now)
    ||| names_files(lossy(text))
    ||| has_line(wl_types, URI_LIST_MIME@)
    ||| has_line(wl_types, KDE_URI_LIST_MIME@)
    ||| has_line(wl_types, GNOME_COPIED_FILES_MIME@)
    ||| has_line(wl_types, APPLIED_MARKER_MIME@)
}

/// What is brought of an image that X11 holds, given the digest of the last one.
pub open spec fn image_to_bring(
    last: Option<Seq<char>>,
    targets: Seq<char>,
    bytes: Seq<u8>,
    max: nat,
) -> Option<BroughtView> {
    match image_type(targets) {
        Some(mime) => if bytes.len() == 0 || bytes.len() > max || last == Some(sha256_text(bytes)) {
            None
        } else {
            Some(brought_image(mime, bytes))
        },
        None => None,
    }
}

/// What is brought of a text that X11 holds, given the digest of the last one and what Wayland
/// holds.
pub open spec fn text_to_bring(
    last: Option<Seq<char>>,
    targets: Seq<char>,
    text: Seq<u8>,
    max: nat,
    pause: Option<Seq<char>>,
    now: u64,
    wl_types: Seq<char>,
    wl_text: Seq<u8>,
) -> Option<BroughtView> {
    if image_type(targets) is Some || text_is_held(text, max, pause, now, wl_types) || text == wl_text
        || last == Some(sha256_text(text)) {
        None
    } else {
        Some(brought_text(text))
    }
}

impl Poller {
    /// The digest of the text that was brought over last.
    pub closed spec fn last_text(&self) -> Option<Seq<char>> {
        opt_text(self.last_text)
    }

    /// The digest of the image that was brought over last.
    pub closed spec fn last_image(&self) -> Option<Seq<char>> {
        opt_text(self.last_image)
    }

    /// Starts with the digests that are kept.
    pub fn new(last_text: Option<String>, last_image: Option<String>) -> (res: Poller)
        ensures
            res.last_text() == opt_text(last_text),
            res.last_image() == opt_text(last_image),
    {
        Poller { last_text, last_image }
    }

    /// An image that is brought over, in the type that the targets name: nothing where they
    /// name none, or where the image is empty, too large, or the same as last time.
    pub fn on_image(&mut self, targets: &str, bytes: &[u8], max: usize) -> (res: Option<Brought>)
        ensures
            brought(res) == image_to_bring(old(self).last_image(), targets@, bytes@, max as nat),
            final(self).last_text() == old(self).last_text(),
            ({
                let sha = sha256_text(bytes@);
                let fresh = image_type(targets@) is Some && 0 < bytes@.len() <= max && old(
                    self,
                ).last_image() != Some(sha);
                &&& brought(res) == if fresh {
                    Some(brought_image(image_type(targets@)->0, bytes@))
                } else {
                    None
                }
                &&& final(self).last_image() == if fresh {
                    Some(sha)
                } else {
                    old(self).last_image()
                }
            }),
    {
        let mime = match pick_x11_image_type(targets) {
            Some(m) => m,
            None => return None,
        };
        if bytes.len() == 0 || bytes.len() > max {
            return None;
        }
        let sha = sha256_hex(bytes);
        if let Some(l) = &self.last_image {
            if same(l.as_str(), sha.as_str()) {
                return None;
            }
        }
        self.last_image = Some(sha.clone());
        Some(
            Brought {
                mime,
                x11_key: "x11_img_hash",
                wl_key: "wl_img_hash",
                sha,
                clears_x11: true,
            },
        )
    }

    /// A text that is brought over: nothing where the targets name an image type, where the
    /// text is held back, where Wayland has it already, or where it is the same as last time.
    /// A text that names files would take the place of a list of files; so would any text
    /// while Wayland offers one.
    pub fn on_text(
        &mut self,
        targets: &str,
        text: &[u8],
        max: usize,
        pause: Option<&str>,
        now: u64,
        wl_types: &str,
        wl_text: &[u8],
    ) -> (res: Option<Brought>)
        ensures
            brought(res) == text_to_bring(
                old(self).last_text(),
                targets@,
                text@,
                max as nat,
                opt_str(pause),
                now,
                wl_types@,
                wl_text@,
            ),
            final(self).last_image() == old(self).last_image(),
            ({
                let sha = sha256_text(text@);
                let fresh = image_type(targets@) is None && !text_is_held(
                    text@,
                    max as nat,
                    opt_str(pause),
                    now,
                    wl_types@,
                ) && text@ != wl_text@ && old(self).last_text() != Some(sha);
                &&& brought(res) == if fresh {
                    Some(brought_text(text@))
                } else {
                    None
                }
                &&& final(self).last_text() == if fresh {
                    Some(sha)
                } else {
                    old(self).last_text()
                }
            }),
    {
        if pick_x11_image_type(targets).is_some() {
            return None;
        }
        if text.len() == 0 || text.len() > max {
            return None;
        }
        if is_text_sync_paused(pause, now) {
            return None;
        }
        let shown = lossy_text(text);
        if looks_like_file_uri_list_text(shown.as_str()) {
            return None;
        }
        if any_line(wl_types, URI_LIST_MIME) || any_line(wl_types, KDE_URI_LIST_MIME) || any_line(
            wl_types,
            GNOME_COPIED_FILES_MIME,
        ) || any_line(wl_types, APPLIED_MARKER_MIME) {
            return None;
        }
        if crate::bytes::same(text, wl_text) {
            return None;
        }
        let sha = sha256_hex(text);
        if let Some(l) = &self.last_text {
            if same(l.as_str(), sha.as_str()) {
                return None;
            }
        }
        self.last_text = Some(sha.clone());
        Some(
            Brought {
                mime: TEXT_MIME,
                x11_key: "x11_text_hash",
                wl_key: "wl_text_hash",
                sha,
                clears_x11: false,
            },
        )
    }
}

/// Of the image types that are named, PNG comes first, then JPEG, then GIF.
pub proof fn law_image_type_that_is_read(targets: Seq<char>)
    ensures
        has_text(targets, "image/png"@) ==> image_type(targets) == Some("image/png"@),
        !has_text(targets, "image/png"@) && has_text(targets, "image/jpeg"@) ==> image_type(targets)
            == Some("image/jpeg"@),
        image_type(targets) is None <==> !has_text(targets, "image/png"@) && !has_text(
            targets,
            "image/jpeg"@,
        ) && !has_text(targets, "image/gif"@),
        image_type(targets) matches Some(t) ==> has_text(targets, t),
{
}

/// The image is read in the type that is named; without one the text is read, in UTF-8 and,
/// where that fails, in the old type.
pub proof fn law_what_is_read(targets: Seq<char>)
    ensures
        image_type(targets) matches Some(t) ==> first_read(targets) == Read::Image && read_type(
            Read::Image,
            targets,
        ) == t,
        image_type(targets) is None ==> read_type(first_read(targets), targets) == "UTF8_STRING"@
            && (read_after(first_read(targets)) matches Some(r) && read_type(r, targets)
            == "STRING"@ && read_after(r) is None),
        image_type(targets) is Some ==> read_after(first_read(targets)) is None,
{
}

/// Content is brought under its own digest; an image in its own type, a text as plain text.
pub proof fn law_what_is_brought(mime: Seq<char>, bytes: Seq<u8>)
    ensures
        brought_image(mime, bytes).mime == mime,
        brought_image(mime, bytes).sha == sha256_text(bytes),
        brought_image(mime, bytes).clears_x11,
        brought_text(bytes).mime == "text/plain;charset=utf-8"@,
        brought_text(bytes).sha == sha256_text(bytes),
        !brought_text(bytes).clears_x11,
        brought_text(bytes).x11_key != brought_image(mime, bytes).x11_key,
        brought_text(bytes).wl_key != brought_image(mime, bytes).wl_key,
{
    reveal_strlit("x11_img_hash");
    reveal_strlit("x11_text_hash");
    reveal_strlit("wl_img_hash");
    reveal_strlit("wl_text_hash");
    assert("x11_img_hash"@.len() == 12 && "x11_text_hash"@.len() == 13 && "wl_img_hash"@.len() == 11
        && "wl_text_hash"@.len() == 12);
}

/// A text is held back only where it is empty or too long, names files, would take the place
/// of files or of content from the relay, or comes during a pause.
pub proof fn law_which_text_is_held(
    text: Seq<u8>,
    max: nat,
    pause: Option<Seq<char>>,
    now: u64,
    wl_types: Seq<char>,
)
    ensures
        text_is_held(text, max, pause, now, wl_types) <==> text.len() == 0 || text.len() > max
            || is_paused(pause, now) || names_files(lossy(text)) || has_line(
            wl_types,
            "text/uri-list"@,
        ) || has_line(wl_types, "application/x-kde4-urilist"@) || has_line(
            wl_types,
            "x-special/gnome-copied-files"@,
        ) || has_line(wl_types, "application/x-multicliprelay-applied"@),
        !is_paused(None, now),
{
}

/// New content of a kind within its limit is copied to X11: a megabyte of text, twenty of an
/// image.
pub proof fn law_new_content_is_copied(bytes: Seq<u8>, last: Option<Seq<char>>)
    requires
        last != Some(sha256_text(bytes)),
    ensures
        hook_copies("text"@, bytes, last) <==> bytes.len() <= 1048576,
        hook_copies("image"@, bytes, last) <==> bytes.len() <= 20971520,
        hook_keys("text"@) matches Some(k) && k.0 == "UTF8_STRING"@,
        hook_keys("image"@) matches Some(k) && k.0 == "image/png"@,
{
    reveal_strlit("image");
    reveal_strlit("text");
    assert("image"@.len() != "text"@.len());
}

/// A new image within the limit is brought in the type that is named; the same image is not
/// brought twice in a row.
pub proof fn law_new_image_is_brought(
    last: Option<Seq<char>>,
    targets: Seq<char>,
    mime: Seq<char>,
    bytes: Seq<u8>,
    max: nat,
)
    requires
        image_type(targets) == Some(mime),
    ensures
        0 < bytes.len() <= max && last != Some(sha256_text(bytes)) ==> (image_to_bring(
            last,
            targets,
            bytes,
            max,
        ) matches Some(b) && b.mime == mime && b.sha == sha256_text(bytes) && b.clears_x11),
        image_to_bring(Some(sha256_text(bytes)), targets, bytes, max) is None,
        bytes.len() == 0 || bytes.len() > max ==> image_to_bring(last, targets, bytes, max) is None,
{
}

/// A new text is brought as plain text where X11 names no image, nothing holds it back and
/// Wayland does not have it; the same text is not brought twice in a row.
pub proof fn law_new_text_is_brought(
    last: Option<Seq<char>>,
    targets: Seq<char>,
    text: Seq<u8>,
    max: nat,
    pause: Option<Seq<char>>,
    now: u64,
    wl_types: Seq<char>,
    wl_text: Seq<u8>,
)
    requires
        image_type(targets) is None,
        !text_is_held(text, max, pause, now, wl_types),
    ensures
        text != wl_text && last != Some(sha256_text(text)) ==> (text_to_bring(
            last,
            targets,
            text,
            max,
            pause,
            now,
            wl_types,
            wl_text,
        ) matches Some(b) && b.mime == "text/plain;charset=utf-8"@ && b.sha == sha256_text(text)
            && !b.clears_x11),
        text_to_bring(
            Some(sha256_text(text)),
            targets,
            text,
            max,
            pause,
            now,
            wl_types,
            wl_text,
        ) is None,
        text_to_bring(last, targets, text, max, pause, now, wl_types, text) is None,
{
}

/// A hook copies texts and images, and nothing else, and never what was copied last.
pub proof fn law_what_a_hook_copies(kind: Seq<char>, bytes: Seq<u8>, last: Option<Seq<char>>)
    ensures
        kind != "text"@ && kind != "image"@ ==> hook_keys(kind) is None && !hook_copies(
            kind,
            bytes,
            last,
        ),
        last == Some(sha256_text(bytes)) ==> !hook_copies(kind, bytes, last),
        hook_copies(kind, bytes, last) ==> bytes.len() <= 20971520,
{
}

} // verus!
