//! Nothing goes in circles: what a device has received and put on its clipboard is not
//! published by that device again.

use crate::apply::{
    guard, image_offer, step, text_offer, MarkView, OfferView, APPLIED_TTL_MS, GUARD_TTL_MS,
    TEXT_MIME,
};
use crate::clip::{ActionView, ItemView};
use crate::consts::{APPLIED_MARKER_MIME, FILE_SUPPRESS_KEY};
use crate::hash::{lemma_hex, sha256, sha256_text};
use crate::image_mode::ImageMode;
use crate::message::{Kind, MessageView};
use crate::publish::{after_types, content_step, over, AtView, RoundView};
use crate::received::{bundle_items, file_items, law_received_files_are_marked, offers};
use crate::suppress::{expiry, holds_back, law_marker_holds_its_digest, marker, EVERY_DIGEST};
use crate::text::{lemma_trimmed, trimmed};
use crate::watch::{hook_mime, offered, publish_mime, with_digest};
use vstd::prelude::*;

verus! {

/// The list of types names each type of the items.
pub open spec fn lists(types: Seq<char>, items: Seq<ItemView>) -> bool {
    forall|m: Seq<char>| #[trigger] offers(items, m) ==> offered(types, m)
}

/// Received files on the clipboard are not published: neither by the hook of any type, nor
/// by a look at the clipboard, nor by the command that publishes the preferred type.
pub proof fn law_received_files_are_not_published(
    sha: Seq<char>,
    name: Seq<char>,
    text: Seq<char>,
    uri_list: Seq<char>,
    types: Seq<char>,
    mode: ImageMode,
    candidate: Seq<char>,
    r: RoundView,
)
    requires
        lists(types, bundle_items(sha, name, text, uri_list)) || lists(
            types,
            file_items(sha, name, text, uri_list),
        ),
    ensures
        hook_mime(types, mode, candidate) is None,
        publish_mime("auto"@, Some(types), mode, Some(candidate)) is None,
        publish_mime("auto"@, Some(types), mode, None) is None,
        after_types(r, Some(types)) == over(r),
{
    law_received_files_are_marked(sha, name, text, uri_list);
    assert(offered(types, APPLIED_MARKER_MIME@));
}

/// A digest is held back under a type by one of the actions, from `set_at` on until the time
/// `now`.
pub open spec fn keeps_back(
    actions: Seq<ActionView>,
    mime: Seq<char>,
    sha: Seq<char>,
    set_at: u64,
    now: u64,
) -> bool {
    exists|i: int|
        0 <= i < actions.len() && #[trigger] actions[i] == ActionView::Suppress(
            mime,
            sha,
            APPLIED_TTL_MS,
        ) && holds_back(marker(sha, expiry(set_at, APPLIED_TTL_MS)), sha, now)
}

/// A digest stands in a marker as it is.
proof fn lemma_digest_in_marker(b: Seq<u8>, set_at: u64, now: u64)
    requires
        now <= expiry(set_at, APPLIED_TTL_MS),
    ensures
        holds_back(
            marker(sha256_text(b), expiry(set_at, APPLIED_TTL_MS)),
            sha256_text(b),
            now,
        ),
{
    let sha = sha256_text(b);
    lemma_hex(sha256(b));
    if sha.contains('\n') {
        let i = choose|i: int| 0 <= i < sha.len() && sha[i] == '\n';
        assert(crate::message::is_hex(sha[i]));
    }
    if sha.len() > 0 {
        assert(crate::message::is_hex(sha[0]));
        assert(crate::message::is_hex(sha[sha.len() - 1]));
        lemma_trimmed(sha);
    } else {
        assert(trimmed(sha) == sha);
    }
    law_marker_holds_its_digest(sha, expiry(set_at, APPLIED_TTL_MS), sha, now);
}

/// While files are put on the clipboard, every digest of files and of text is held back.
pub proof fn law_guard_holds_everything_back(i: int, sha: Seq<char>, set_at: u64, now: u64)
    requires
        0 <= i < guard().len(),
        now <= expiry(set_at, GUARD_TTL_MS),
    ensures
        guard()[i] matches ActionView::Suppress(key, held, ttl) && (key == FILE_SUPPRESS_KEY@
            || key == TEXT_MIME@ || key == "text/plain"@) && holds_back(
            marker(held, expiry(set_at, ttl)),
            sha,
            now,
        ),
{
    let star = EVERY_DIGEST@;
    reveal_strlit("*");
    assert(star =~= seq!['*']);
    lemma_trimmed(star);
    law_marker_holds_its_digest(star, expiry(set_at, GUARD_TTL_MS), sha, now);
}

/// Text that was applied is held back for a while: the publication of the same text asks for
/// just the digest that is held back.
pub proof fn law_applied_text_is_held_back(
    applied: Map<Seq<char>, Seq<char>>,
    own: Seq<char>,
    mode: ImageMode,
    received: Seq<u8>,
    msg: MessageView,
    set_at: u64,
    now: u64,
    other: ImageMode,
    png: Option<Seq<u8>>,
)
    requires
        msg.kind == Kind::Text,
        msg.payload is Some,
        msg.sha256 == Some(sha256_text(msg.payload->0)),
        !crate::apply::is_ignored(applied, own, msg),
        now <= expiry(set_at, APPLIED_TTL_MS),
    ensures
        ({
            let s = step(applied, own, mode, received, msg);
            let sha = sha256_text(msg.payload->0);
            &&& s is Do
            &&& keeps_back(s->Do_0, TEXT_MIME@, sha, set_at, now)
            &&& content_step(TEXT_MIME@, other, msg.payload->0, png) == (
                AtView::Held(with_digest(TEXT_MIME@, msg.payload->0)),
                crate::publish::StepView::IsHeldBack(TEXT_MIME@, sha),
            )
        }),
{
    let p = msg.payload->0;
    let sha = sha256_text(p);
    let s = step(applied, own, mode, received, msg);
    lemma_digest_in_marker(p, set_at, now);
    let o = text_offer(p, msg.sha256);
    assert(o.marks =~= seq![MarkView { key: TEXT_MIME@, sha }]);
    assert(s->Do_0[2] == ActionView::Suppress(TEXT_MIME@, sha, APPLIED_TTL_MS));
    reveal_strlit("image/");
    reveal_strlit("text/plain;charset=utf-8");
    assert(!"image/"@.is_prefix_of(TEXT_MIME@)) by {
        if "image/"@.is_prefix_of(TEXT_MIME@) {
            assert(TEXT_MIME@.subrange(0, 6)[0] == 'i');
        }
    }
}

/// A digest is marked under a type.
pub open spec fn marks_digest(o: OfferView, mime: Seq<char>, sha: Seq<char>) -> bool {
    exists|i: int| 0 <= i < o.marks.len() && #[trigger] o.marks[i] == MarkView { key: mime, sha }
}

/// An image that was applied as it is, or beside a PNG, is held back in each type in which it
/// is on the clipboard: the publication of what is there asks for just the digest that is
/// held back. Where images are converted to PNG the digest held back is that of the message,
/// and what another conversion gives need not have it.
pub proof fn law_applied_image_is_held_back(
    mode: ImageMode,
    mime: Seq<char>,
    payload: Seq<u8>,
    png: Option<Seq<u8>>,
    i: int,
    again: Option<Seq<u8>>,
)
    requires
        mode != ImageMode::ForcePng,
        0 <= i < image_offer(mode, mime, payload, Some(sha256_text(payload)), png).items.len(),
    ensures
        ({
            let o = image_offer(mode, mime, payload, Some(sha256_text(payload)), png);
            let it = o.items[i];
            &&& marks_digest(o, it.mime, sha256_text(it.bytes))
            &&& content_step(it.mime, mode, it.bytes, again) == (
                AtView::Held(with_digest(it.mime, it.bytes)),
                crate::publish::StepView::IsHeldBack(it.mime, sha256_text(it.bytes)),
            )
        }),
{
    let o = image_offer(mode, mime, payload, Some(sha256_text(payload)), png);
    let it = o.items[i];
    assert(o.marks.len() == o.items.len());
    assert(o.marks[i] == MarkView { key: it.mime, sha: sha256_text(it.bytes) });
}

/// What an offer marks, the actions hold back.
pub proof fn law_marks_are_held_back(
    o: OfferView,
    mime: Seq<char>,
    bytes: Seq<u8>,
    set_at: u64,
    now: u64,
)
    requires
        marks_digest(o, mime, sha256_text(bytes)),
        now <= expiry(set_at, APPLIED_TTL_MS),
    ensures
        keeps_back(
            crate::apply::image_actions(o),
            mime,
            sha256_text(bytes),
            set_at,
            now,
        ),
{
    let sha = sha256_text(bytes);
    lemma_digest_in_marker(bytes, set_at, now);
    let i = choose|i: int|
        0 <= i < o.marks.len() && #[trigger] o.marks[i] == MarkView { key: mime, sha };
    let actions = crate::apply::image_actions(o);
    assert(actions[2 + i] == ActionView::Suppress(mime, sha, APPLIED_TTL_MS));
}

} // verus!
