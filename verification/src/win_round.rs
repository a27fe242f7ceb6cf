//! One look at the Windows clipboard, step by step: what is asked of the system next, and
//! what follows from the answer.

use crate::apply::{opt_str, TEXT_MIME};
use crate::hash::sha256_text;
use crate::watch::{is_unique, unique_paths, with_digest, Outgoing, OutgoingView};
use crate::win_sync::{
    dib_png, image_to_watch, text_to_watch, verdict, verdict_of, watch_image, watch_text, Verdict,
    WinWatch,
};
use crate::wire::opt_text;
use vstd::prelude::*;

verus! {

/// What is done next.
#[verifier::ext_equal]
pub enum AskView {
    Rest,
    Files,
    Bitmap,
    Text,
    SendFiles(Seq<Seq<u8>>),
    HoldTextBack,
    IsKnown(Seq<char>, Seq<char>),
    Send(OutgoingView),
}

/// What is done next.
#[derive(Debug)]
pub enum Ask {
    /// Nothing more.
    Rest,
    /// Read the list of files.
    Files,
    /// Read the bitmap.
    Bitmap,
    /// Read the text.
    Text,
    /// Send the files.
    SendFiles(Vec<Vec<u8>>),
    /// Hold text back for a while.
    HoldTextBack,
    /// Find out what is noted as sent for a type, and whether the digest is held back.
    IsKnown(String, String),
    /// Send the content.
    Send(Outgoing),
}

impl View for Ask {
    type V = AskView;

    open spec fn view(&self) -> AskView {
        match *self {
            Ask::Rest => AskView::Rest,
            Ask::Files => AskView::Files,
            Ask::Bitmap => AskView::Bitmap,
            Ask::Text => AskView::Text,
            Ask::SendFiles(ps) => AskView::SendFiles(ps.deep_view()),
            Ask::HoldTextBack => AskView::HoldTextBack,
            Ask::IsKnown(m, sha) => AskView::IsKnown(m@, sha@),
            Ask::Send(out) => AskView::Send(out@),
        }
    }
}

/// Where a look at the clipboard stands.
#[verifier::ext_equal]
pub enum WinAtView {
    Files,
    SendingFiles,
    Bitmap,
    ImageAsked(OutgoingView),
    SendingImage(Seq<char>),
    Text,
    TextAsked(OutgoingView),
    SendingText(Seq<char>),
    End,
}

/// One look at the clipboard.
pub enum WinRound {
    /// The list of files was asked for.
    Files,
    /// The files are being sent.
    SendingFiles,
    /// The bitmap was asked for.
    Bitmap,
    /// It was asked whether the image is known.
    ImageAsked(Outgoing),
    /// The image with a digest is being sent.
    SendingImage(String),
    /// The text was asked for.
    Text,
    /// It was asked whether the text is known.
    TextAsked(Outgoing),
    /// The text with a digest is being sent.
    SendingText(String),
    End,
}

impl View for WinRound {
    type V = WinAtView;

    open spec fn view(&self) -> WinAtView {
        match *self {
            WinRound::Files => WinAtView::Files,
            WinRound::SendingFiles => WinAtView::SendingFiles,
            WinRound::Bitmap => WinAtView::Bitmap,
            WinRound::ImageAsked(out) => WinAtView::ImageAsked(out@),
            WinRound::SendingImage(sha) => WinAtView::SendingImage(sha@),
            WinRound::Text => WinAtView::Text,
            WinRound::TextAsked(out) => WinAtView::TextAsked(out@),
            WinRound::SendingText(sha) => WinAtView::SendingText(sha@),
            WinRound::End => WinAtView::End,
        }
    }
}

/// What was seen last on the clipboard.
#[verifier::ext_equal]
pub struct SeenView {
    pub seq: u32,
    pub text: Option<Seq<char>>,
    pub image: Option<Seq<char>>,
}

/// What was seen last.
pub open spec fn seen(w: WinWatch) -> SeenView {
    SeenView { seq: w.seq, text: opt_text(w.text), image: opt_text(w.image) }
}

/// The round is over.
pub open spec fn done() -> (WinAtView, AskView) {
    (WinAtView::End, AskView::Rest)
}

/// What follows on the list of files, if there is one: files are sent before all else.
pub open spec fn is_after_files(
    at: WinAtView,
    files: Option<Seq<Seq<u8>>>,
    next: (WinAtView, AskView),
) -> bool {
    if at !is Files {
        next == done()
    } else if files is Some && files->0.len() > 0 {
        &&& next.0 is SendingFiles
        &&& next.1 is SendFiles
        &&& is_unique(files->0, next.1->SendFiles_0)
    } else {
        next == (WinAtView::Bitmap, AskView::Bitmap)
    }
}

/// What follows on the attempt to send the files: where none were sent, the bitmap is
/// looked at.
pub open spec fn after_files_sent(at: WinAtView, sent: bool) -> (WinAtView, AskView) {
    if at !is SendingFiles {
        done()
    } else if sent {
        (WinAtView::End, AskView::HoldTextBack)
    } else {
        (WinAtView::Bitmap, AskView::Bitmap)
    }
}

/// What follows on the bitmap, if there is one.
pub open spec fn after_bitmap(at: WinAtView, dib: Option<Seq<u8>>, max: nat) -> (WinAtView, AskView) {
    if at !is Bitmap {
        done()
    } else {
        match dib {
            Some(d) => match image_to_watch(dib_png(d), max) {
                Some(png) => (
                    WinAtView::ImageAsked(with_digest("image/png"@, png)),
                    AskView::IsKnown("image/png"@, sha256_text(png)),
                ),
                None => (WinAtView::Text, AskView::Text),
            },
            None => (WinAtView::Text, AskView::Text),
        }
    }
}

/// What follows on the text, if there is one.
pub open spec fn after_text(at: WinAtView, text: Option<Seq<char>>, max: nat) -> (
    WinAtView,
    AskView,
) {
    if at !is Text {
        done()
    } else {
        match text {
            Some(t) => match text_to_watch(t, max) {
                Some(b) => (
                    WinAtView::TextAsked(with_digest(TEXT_MIME@, b)),
                    AskView::IsKnown(TEXT_MIME@, sha256_text(b)),
                ),
                None => done(),
            },
            None => done(),
        }
    }
}

/// What follows once it is known what is noted and whether the content is held back. An
/// image that is not sent again makes way for the text.
pub open spec fn after_known(
    at: WinAtView,
    w: SeenView,
    noted: Option<Seq<char>>,
    held: bool,
) -> (WinAtView, AskView) {
    match at {
        WinAtView::ImageAsked(out) => match verdict(w.image, noted, out.sha, held) {
            Verdict::Send => (WinAtView::SendingImage(out.sha), AskView::Send(out)),
            Verdict::Known => done(),
            Verdict::Hold => (WinAtView::Text, AskView::Text),
        },
        WinAtView::TextAsked(out) => match verdict(w.text, noted, out.sha, held) {
            Verdict::Send => (WinAtView::SendingText(out.sha), AskView::Send(out)),
            _ => done(),
        },
        _ => done(),
    }
}

/// Content that another process sent is the last seen.
pub open spec fn seen_after_known(
    at: WinAtView,
    w: SeenView,
    noted: Option<Seq<char>>,
    held: bool,
) -> SeenView {
    match at {
        WinAtView::ImageAsked(out) => if verdict(w.image, noted, out.sha, held)
            == Verdict::Known {
            SeenView { image: Some(out.sha), ..w }
        } else {
            w
        },
        WinAtView::TextAsked(out) => if verdict(w.text, noted, out.sha, held)
            == Verdict::Known {
            SeenView { text: Some(out.sha), ..w }
        } else {
            w
        },
        _ => w,
    }
}

/// Content that was sent is the last seen.
pub open spec fn seen_after_sent(at: WinAtView, w: SeenView) -> SeenView {
    match at {
        WinAtView::SendingImage(sha) => SeenView { image: Some(sha), ..w },
        WinAtView::SendingText(sha) => SeenView { text: Some(sha), ..w },
        _ => w,
    }
}

impl WinRound {
    /// A new look at the clipboard. The list of files is asked for first.
    pub fn start() -> (res: (WinRound, Ask))
        ensures
            (res.0@, res.1@) == (WinAtView::Files, AskView::Files),
    {
        (WinRound::Files, Ask::Files)
    }

    /// The list of files is known, or there is none.
    pub fn on_files(self, files: Option<Vec<Vec<u8>>>) -> (res: (WinRound, Ask))
        ensures
            is_after_files(
                self@,
                match files {
                    Some(ps) => Some(ps.deep_view()),
                    None => None,
                },
                (res.0@, res.1@),
            ),
    {
        match self {
            WinRound::Files => {},
            _ => return (WinRound::End, Ask::Rest),
        }
        match files {
            Some(ps) => if ps.len() > 0 {
                (WinRound::SendingFiles, Ask::SendFiles(unique_paths(&ps)))
            } else {
                (WinRound::Bitmap, Ask::Bitmap)
            },
            None => (WinRound::Bitmap, Ask::Bitmap),
        }
    }

    /// The files were sent, or not.
    pub fn on_files_sent(self, sent: bool) -> (res: (WinRound, Ask))
        ensures
            (res.0@, res.1@) == after_files_sent(self@, sent),
    {
        match self {
            WinRound::SendingFiles => if sent {
                (WinRound::End, Ask::HoldTextBack)
            } else {
                (WinRound::Bitmap, Ask::Bitmap)
            },
            _ => (WinRound::End, Ask::Rest),
        }
    }

    /// The bitmap is known, or there is none.
    pub fn on_bitmap(self, dib: Option<Vec<u8>>, max: usize) -> (res: (WinRound, Ask))
        ensures
            (res.0@, res.1@) == after_bitmap(self@, crate::wire::opt_payload(dib), max as nat),
    {
        match self {
            WinRound::Bitmap => {},
            _ => return (WinRound::End, Ask::Rest),
        }
        let out = match dib {
            Some(d) => watch_image(d.as_slice(), max),
            None => None,
        };
        match out {
            Some(out) => {
                let ask = Ask::IsKnown(out.mime.clone(), out.sha.clone());
                (WinRound::ImageAsked(out), ask)
            },
            None => (WinRound::Text, Ask::Text),
        }
    }

    /// The text is known, or there is none.
    pub fn on_text(self, text: Option<&str>, max: usize) -> (res: (WinRound, Ask))
        ensures
            (res.0@, res.1@) == after_text(self@, opt_str(text), max as nat),
    {
        match self {
            WinRound::Text => {},
            _ => return (WinRound::End, Ask::Rest),
        }
        let out = match text {
            Some(t) => watch_text(t, max),
            None => None,
        };
        match out {
            Some(out) => {
                let ask = Ask::IsKnown(out.mime.clone(), out.sha.clone());
                (WinRound::TextAsked(out), ask)
            },
            None => (WinRound::End, Ask::Rest),
        }
    }

    /// It is known what is noted as sent, and whether the digest is held back.
    pub fn on_known(self, w: &mut WinWatch, noted: Option<&str>, held: bool) -> (res: (WinRound, Ask))
        ensures
            (res.0@, res.1@) == after_known(self@, seen(*old(w)), opt_str(noted), held),
            seen(*final(w)) == seen_after_known(self@, seen(*old(w)), opt_str(noted), held),
    {
        match self {
            WinRound::ImageAsked(out) => {
                let last: Option<&str> = match &w.image {
                    Some(s) => Some(s.as_str()),
                    None => None,
                };
                match verdict_of(last, noted, out.sha.as_str(), held) {
                    Verdict::Send => {
                        let sha = out.sha.clone();
                        (WinRound::SendingImage(sha), Ask::Send(out))
                    },
                    Verdict::Known => {
                        w.image = Some(out.sha);
                        (WinRound::End, Ask::Rest)
                    },
                    Verdict::Hold => (WinRound::Text, Ask::Text),
                }
            },
            WinRound::TextAsked(out) => {
                let last: Option<&str> = match &w.text {
                    Some(s) => Some(s.as_str()),
                    None => None,
                };
                match verdict_of(last, noted, out.sha.as_str(), held) {
                    Verdict::Send => {
                        let sha = out.sha.clone();
                        (WinRound::SendingText(sha), Ask::Send(out))
                    },
                    Verdict::Known => {
                        w.text = Some(out.sha);
                        (WinRound::End, Ask::Rest)
                    },
                    Verdict::Hold => (WinRound::End, Ask::Rest),
                }
            },
            _ => (WinRound::End, Ask::Rest),
        }
    }

    /// The content has been sent, which ends the round.
    pub fn on_sent(self, w: &mut WinWatch)
        ensures
            seen(*final(w)) == seen_after_sent(self@, seen(*old(w))),
    {
        match self {
            WinRound::SendingImage(sha) => {
                w.image = Some(sha);
            },
            WinRound::SendingText(sha) => {
                w.text = Some(sha);
            },
            _ => {},
        }
    }
}

/// Content that waits carries its own digest.
pub open spec fn carries_digest(at: WinAtView) -> bool {
    match at {
        WinAtView::ImageAsked(out) => out == with_digest(out.mime, out.bytes),
        WinAtView::TextAsked(out) => out == with_digest(out.mime, out.bytes),
        _ => true,
    }
}

/// Content that waits to be sent, and content that is sent, carries its own digest.
pub proof fn law_sent_content_carries_its_digest(
    at: WinAtView,
    w: SeenView,
    noted: Option<Seq<char>>,
    held: bool,
    dib: Option<Seq<u8>>,
    text: Option<Seq<char>>,
    max: nat,
)
    ensures
        carries_digest(after_bitmap(at, dib, max).0),
        carries_digest(after_text(at, text, max).0),
        carries_digest(at) ==> carries_digest(after_known(at, w, noted, held).0),
        carries_digest(at) ==> (after_known(at, w, noted, held).1 matches AskView::Send(out) ==> out
            == with_digest(out.mime, out.bytes)),
{
}

/// What is held back is not sent.
pub proof fn law_held_back_is_not_sent(at: WinAtView, w: SeenView, noted: Option<Seq<char>>)
    ensures
        after_known(at, w, noted, true).1 !is Send,
{
}

/// An image that has just been sent is not sent again, and the text gets its turn.
pub proof fn law_sent_image_makes_way(
    w: SeenView,
    mime: Seq<char>,
    bytes: Seq<u8>,
    noted: Option<Seq<char>>,
    held: bool,
)
    ensures
        after_known(
            WinAtView::ImageAsked(with_digest(mime, bytes)),
            seen_after_sent(WinAtView::SendingImage(sha256_text(bytes)), w),
            noted,
            held,
        ) == (WinAtView::Text, AskView::Text),
{
}

/// Text that has just been sent is not sent again.
pub proof fn law_sent_text_is_not_sent_again(
    w: SeenView,
    mime: Seq<char>,
    bytes: Seq<u8>,
    noted: Option<Seq<char>>,
    held: bool,
)
    ensures
        after_known(
            WinAtView::TextAsked(with_digest(mime, bytes)),
            seen_after_sent(WinAtView::SendingText(sha256_text(bytes)), w),
            noted,
            held,
        ) == done(),
{
}

/// Content that another process has sent is not sent here, neither now nor later.
pub proof fn law_known_content_is_not_sent(
    at: WinAtView,
    w: SeenView,
    noted: Seq<char>,
    later: Option<Seq<char>>,
    held: bool,
)
    requires
        match at {
            WinAtView::ImageAsked(out) => noted == out.sha,
            WinAtView::TextAsked(out) => noted == out.sha,
            _ => false,
        },
    ensures
        after_known(at, w, Some(noted), held).1 !is Send,
        !held ==> after_known(
            at,
            seen_after_known(at, w, Some(noted), held),
            later,
            held,
        ).1 !is Send,
{
}

/// New text is sent as it is: where there are no files and no bitmap it is asked about, and
/// where it is within the limit, was not seen last, is not noted as sent and is not held back,
/// it goes out in UTF-8 with its digest, and is the last seen from then on.
pub proof fn law_new_text_is_sent(
    t: Seq<char>,
    w: SeenView,
    noted: Option<Seq<char>>,
    max: nat,
    next: (WinAtView, AskView),
)
    requires
        is_after_files(WinAtView::Files, None, next),
        t.len() > 0,
        vstd::utf8::encode_utf8(t).len() <= max,
        w.text != Some(sha256_text(vstd::utf8::encode_utf8(t))),
        noted != Some(sha256_text(vstd::utf8::encode_utf8(t))),
    ensures
        ({
            let bytes = vstd::utf8::encode_utf8(t);
            let sha = sha256_text(bytes);
            let bitmap = after_bitmap(next.0, None, max);
            let text = after_text(bitmap.0, Some(t), max);
            let known = after_known(text.0, w, noted, false);
            &&& next.1 == AskView::Bitmap
            &&& bitmap.1 == AskView::Text
            &&& text.1 == AskView::IsKnown("text/plain;charset=utf-8"@, sha)
            &&& known.1 == AskView::Send(
                OutgoingView { mime: "text/plain;charset=utf-8"@, bytes, sha },
            )
            &&& seen_after_sent(known.0, w).text == Some(sha)
            &&& seen_after_sent(known.0, w).image == w.image
        }),
{
}

/// A new image is sent as the PNG of the bitmap: where it is within the limit, was not seen
/// last, is not noted as sent and is not held back, it goes out with its digest, and is the
/// last seen from then on.
pub proof fn law_new_image_is_sent(
    dib: Seq<u8>,
    png: Seq<u8>,
    w: SeenView,
    noted: Option<Seq<char>>,
    max: nat,
    next: (WinAtView, AskView),
)
    requires
        is_after_files(WinAtView::Files, None, next),
        dib_png(dib) == Some(png),
        0 < png.len() <= max,
        w.image != Some(sha256_text(png)),
        noted != Some(sha256_text(png)),
    ensures
        ({
            let sha = sha256_text(png);
            let bitmap = after_bitmap(next.0, Some(dib), max);
            let known = after_known(bitmap.0, w, noted, false);
            &&& bitmap.1 == AskView::IsKnown("image/png"@, sha)
            &&& known.1 == AskView::Send(OutgoingView { mime: "image/png"@, bytes: png, sha })
            &&& seen_after_sent(known.0, w).image == Some(sha)
            &&& seen_after_sent(known.0, w).text == w.text
        }),
{
}

/// An image that is empty or too large, or cannot be read, leaves the look at the text.
pub proof fn law_text_gets_its_turn(dib: Seq<u8>, max: nat)
    requires
        dib_png(dib) matches Some(p) ==> p.len() == 0 || p.len() > max,
    ensures
        after_bitmap(WinAtView::Bitmap, Some(dib), max) == (WinAtView::Text, AskView::Text),
{
}

/// Files that were copied are sent, each of them and no others, before anything else is looked
/// at; where they cannot be sent, the bitmap is looked at.
pub proof fn law_copied_files_are_sent(files: Seq<Seq<u8>>, next: (WinAtView, AskView), i: int)
    requires
        is_after_files(WinAtView::Files, Some(files), next),
        0 <= i < files.len(),
    ensures
        next.1 matches AskView::SendFiles(out) && (exists|k: int|
            0 <= k < out.len() && crate::path::parts(#[trigger] out[k]) == crate::path::parts(
                files[i],
            )) && forall|k: int| 0 <= k < out.len() ==> files.contains(#[trigger] out[k]),
        after_files_sent(next.0, false) == (WinAtView::Bitmap, AskView::Bitmap),
        after_files_sent(next.0, true) == (WinAtView::End, AskView::HoldTextBack),
{
    let out = next.1->SendFiles_0;
    let keys = crate::bundle::all_parts(out);
    assert(keys.contains(crate::path::parts(files[i])));
    let k = choose|k: int| 0 <= k < keys.len() && keys[k] == crate::path::parts(files[i]);
    assert(crate::path::parts(out[k]) == crate::path::parts(files[i]));
    assert forall|k: int| 0 <= k < out.len() implies files.contains(#[trigger] out[k]) by {
        assert(crate::watch::is_first_among(files, out[k]));
    }
}

/// An empty list of files is like none: the bitmap is looked at.
pub proof fn law_empty_list_is_like_none(next: (WinAtView, AskView))
    requires
        is_after_files(WinAtView::Files, Some(Seq::empty()), next),
    ensures
        next == (WinAtView::Bitmap, AskView::Bitmap),
        is_after_files(WinAtView::Files, None, next),
{
}

/// Content that another process sent counts as seen from then on, and nothing else does.
pub proof fn law_known_content_counts_as_seen(
    out: OutgoingView,
    w: SeenView,
    noted: Option<Seq<char>>,
    held: bool,
)
    ensures
        ({
            let i = seen_after_known(WinAtView::ImageAsked(out), w, noted, held);
            let t = seen_after_known(WinAtView::TextAsked(out), w, noted, held);
            &&& noted == Some(out.sha) && !held ==> i.image == Some(out.sha) && t.text == Some(
                out.sha,
            )
            &&& noted != Some(out.sha) || held ==> i == w && t == w
            &&& i.text == w.text && t.image == w.image
            &&& i.seq == w.seq && t.seq == w.seq
        }),
{
}

} // verus!
