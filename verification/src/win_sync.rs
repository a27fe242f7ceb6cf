//! Watching and filling the Windows clipboard.

use crate::apply::{
    applied_line, file_sha, file_sha_of, image_mime_or_png, is_ignored, line_of, opt_str, Applier,
    APPLIED_TTL_MS, TEXT_MIME,
};
use crate::bytes::{lossy, lossy_text};
use crate::clip::{Action, ActionView};
use crate::codec::{bytes_to_dibv5, dib_of, dib_to_png, image_pixels, png_of_pixels};
use crate::hash::{sha256_hex, sha256_text};
use crate::message::{Kind, Message, MessageView};
use crate::number::{decimal, print};
use crate::path::join_text;
use crate::paths::{can_cut_8, first_8, first_eight, in_dir};
use crate::text::same;
use crate::watch::Outgoing;
use vstd::prelude::*;

verus! {

/// What becomes of new content.
#[derive(Clone, Copy, Debug, PartialEq, Eq, Structural)]
pub enum Verdict {
    /// It is held back, or was the last seen.
    Hold,
    /// Another process has sent it: it is the last seen now.
    Known,
    /// It is sent, and is the last seen then.
    Send,
}

/// What becomes of content with a digest, given what was seen last and what is noted as
/// sent.
pub open spec fn verdict(
    last: Option<Seq<char>>,
    noted: Option<Seq<char>>,
    sha: Seq<char>,
    held_back: bool,
) -> Verdict {
    if held_back || last == Some(sha) {
        Verdict::Hold
    } else if noted == Some(sha) {
        Verdict::Known
    } else {
        Verdict::Send
    }
}

/// What becomes of content with a digest.
pub fn verdict_of(last: Option<&str>, noted: Option<&str>, sha: &str, held_back: bool) -> (res:
    Verdict)
    ensures
        res == verdict(opt_str(last), opt_str(noted), sha@, held_back),
{
    if held_back {
        return Verdict::Hold;
    }
    if let Some(l) = last {
        if same(l, sha) {
            return Verdict::Hold;
        }
    }
    if let Some(n) = noted {
        if same(n, sha) {
            return Verdict::Known;
        }
    }
    Verdict::Send
}

/// The PNG of a bitmap on the clipboard.
pub open spec fn dib_png(dib: Seq<u8>) -> Option<Seq<u8>> {
    match crate::win_image::dib_error(dib) {
        Some(_) => None,
        None => {
            let l = crate::win_image::layout(dib);
            png_of_pixels(l.width as u32, l.height as u32, crate::win_image::pixels(dib, l))
        },
    }
}

/// The image that is sent for a PNG, if any: it is not empty and within the limit.
pub open spec fn image_to_watch(png: Option<Seq<u8>>, max: nat) -> Option<Seq<u8>> {
    match png {
        Some(p) => if p.len() == 0 || p.len() > max {
            None
        } else {
            Some(p)
        },
        None => None,
    }
}

/// What is sent for a bitmap on the clipboard, if anything.
pub fn watch_image(dib: &[u8], max: usize) -> (res: Option<Outgoing>)
    ensures
        match image_to_watch(dib_png(dib@), max as nat) {
            Some(p) => res is Some && res->0.mime@ == "image/png"@ && res->0.bytes@ == p
                && res->0.sha@ == sha256_text(p),
            None => res is None,
        },
{
    match dib_to_png(dib) {
        Ok(p) => {
            if p.len() == 0 || p.len() > max {
                return None;
            }
            let sha = sha256_hex(p.as_slice());
            Some(Outgoing { mime: "image/png".to_string(), bytes: p, sha })
        },
        Err(_) => None,
    }
}

/// The text that is sent: not empty, and within the limit in UTF-8.
pub open spec fn text_to_watch(text: Seq<char>, max: nat) -> Option<Seq<u8>> {
    let b = vstd::utf8::encode_utf8(text);
    if text.len() == 0 || b.len() > max {
        None
    } else {
        Some(b)
    }
}

/// What is sent for text on the clipboard, if anything.
pub fn watch_text(text: &str, max: usize) -> (res: Option<Outgoing>)
    ensures
        match text_to_watch(text@, max as nat) {
            Some(b) => res is Some && res->0.mime@ == TEXT_MIME@ && res->0.bytes@ == b
                && res->0.sha@ == sha256_text(b),
            None => res is None,
        },
{
    if text.is_empty() {
        return None;
    }
    let bytes = text.as_bytes_vec();
    if bytes.len() > max {
        return None;
    }
    let sha = sha256_hex(bytes.as_slice());
    Some(Outgoing { mime: TEXT_MIME.to_string(), bytes, sha })
}

/// What was seen last on the clipboard.
pub struct WinWatch {
    pub seq: u32,
    pub text: Option<String>,
    pub image: Option<String>,
}

impl WinWatch {
    /// A clipboard with the given sequence number, of which nothing was seen.
    pub fn new(seq: u32) -> (res: WinWatch)
        ensures
            res.seq == seq,
            res.text is None,
            res.image is None,
    {
        WinWatch { seq, text: None, image: None }
    }

    /// Whether there is something to look at: the sequence number changed, and the
    /// content did not come from the relay.
    pub fn changed(&mut self, seq: u32, marked: bool) -> (res: bool)
        ensures
            res == (seq != old(self).seq && !marked),
            *final(self) == (WinWatch { seq, ..*old(self) }),
    {
        if seq == self.seq {
            return false;
        }
        self.seq = seq;
        !marked
    }
}

/// What a message makes the node do.
pub enum WinStepView {
    Nothing,
    Text(Seq<char>, Seq<char>, Seq<ActionView>),
    Image(Seq<u8>, Seq<char>, Seq<ActionView>),
    File(Seq<char>, Seq<u8>),
}

/// What a message makes the node do.
#[derive(Debug)]
pub enum WinStep {
    /// Nothing.
    Nothing,
    /// Put the text on the clipboard, with the digest as marker, then the actions.
    Text(String, String, Vec<Action>),
    /// Put the bitmap on the clipboard, with the digest as marker, then the actions.
    Image(Vec<u8>, String, Vec<Action>),
    /// Unpack the payload into the directory and put what it holds on the clipboard,
    /// with the digest as marker.
    File(String, Vec<u8>),
}

impl View for WinStep {
    type V = WinStepView;

    open spec fn view(&self) -> WinStepView {
        match self {
            WinStep::Nothing => WinStepView::Nothing,
            WinStep::Text(t, s, a) => WinStepView::Text(t@, s@, a.deep_view()),
            WinStep::Image(d, s, a) => WinStepView::Image(d@, s@, a.deep_view()),
            WinStep::File(s, d) => WinStepView::File(s@, d@),
        }
    }
}

/// What follows content that was put on the clipboard.
pub open spec fn win_actions(key: Seq<char>, sha: Seq<char>, say: Seq<char>) -> Seq<ActionView> {
    seq![
        ActionView::Record,
        ActionView::Suppress(key, sha, APPLIED_TTL_MS),
        ActionView::Say(say),
    ]
}

fn win_actions_of(key: &str, sha: &str, say: String) -> (res: Vec<Action>)
    ensures
        res.deep_view() == win_actions(key@, sha@, say@),
{
    let mut out: Vec<Action> = Vec::new();
    out.push(Action::Record);
    out.push(Action::Suppress(key.to_string(), sha.to_string(), APPLIED_TTL_MS));
    out.push(Action::Say(say));
    assert(out.deep_view() =~= win_actions(key@, sha@, say@));
    out
}

/// What a message makes the node do. `dib` is what an image's pixels are written as.
pub open spec fn win_step(
    applied: Map<Seq<char>, Seq<char>>,
    own: Seq<char>,
    received: Seq<u8>,
    msg: MessageView,
    dib: Option<Seq<u8>>,
) -> WinStepView {
    if is_ignored(applied, own, msg) || msg.payload is None {
        WinStepView::Nothing
    } else {
        let p = msg.payload->0;
        let sha = file_sha(msg);
        match msg.kind {
            Kind::Text => WinStepView::Text(
                lossy(p),
                sha,
                win_actions(TEXT_MIME@, sha, applied_line("text"@, p.len())),
            ),
            Kind::Image => match dib {
                Some(d) => WinStepView::Image(
                    d,
                    sha,
                    win_actions("image/png"@, sha, applied_line("image"@, p.len())),
                ),
                None => WinStepView::Nothing,
            },
            Kind::File => WinStepView::File(sha, in_dir(received, first_eight(sha))),
            Kind::Join => WinStepView::Nothing,
        }
    }
}

/// The image's bitmap, where the message has a payload that can be converted.
pub open spec fn message_dib(msg: MessageView) -> Option<Seq<u8>> {
    match msg.payload {
        Some(p) => match dib_of(image_pixels(p)) {
            Ok(d) => Some(d),
            Err(_) => None,
        },
        None => None,
    }
}

/// What is remembered after a message. A file is remembered when it has been put on
/// the clipboard.
pub open spec fn win_applied_after(
    applied: Map<Seq<char>, Seq<char>>,
    own: Seq<char>,
    msg: MessageView,
    dib: Option<Seq<u8>>,
) -> Map<Seq<char>, Seq<char>> {
    if is_ignored(applied, own, msg) || msg.payload is None {
        applied
    } else {
        match msg.kind {
            Kind::Text => applied.insert(TEXT_MIME@, file_sha(msg)),
            Kind::Image => if dib is Some {
                applied.insert(image_mime_or_png(msg), file_sha(msg))
            } else {
                applied
            },
            _ => applied,
        }
    }
}

/// A message can be taken: where its file is to be stored, the digest that it gives can be cut
/// after eight bytes.
pub open spec fn can_take(
    applied: Map<Seq<char>, Seq<char>>,
    own: Seq<char>,
    msg: MessageView,
) -> bool {
    msg.kind == Kind::File && msg.payload is Some && msg.sha256 is Some && !is_ignored(
        applied,
        own,
        msg,
    ) ==> can_cut_8(msg.sha256->0)
}

/// Whether a message can be taken.
pub fn takes(state: &Applier, own: &str, msg: &Message) -> (res: bool)
    requires
        state.wf(),
    ensures
        res == can_take(state@, own@, msg@),
{
    if msg.kind != Kind::File || msg.payload.is_none() || state.ignores(own, msg) {
        return true;
    }
    match &msg.sha256 {
        Some(sha) => sha.as_str().as_bytes().len() < 8 || sha.as_str().is_char_boundary(8),
        None => true,
    }
}

/// Takes a message: what to do with it on Windows.
pub fn on_message(state: &mut Applier, own: &str, received: &[u8], msg: &Message) -> (res: WinStep)
    requires
        old(state).wf(),
        can_take(old(state)@, own@, msg@),
    ensures
        final(state).wf(),
        final(state)@ == win_applied_after(old(state)@, own@, msg@, message_dib(msg@)),
        res@ == win_step(old(state)@, own@, received@, msg@, message_dib(msg@)),
{
    if state.ignores(own, msg) {
        return WinStep::Nothing;
    }
    let payload: &[u8] = match &msg.payload {
        Some(p) => p.as_slice(),
        None => return WinStep::Nothing,
    };
    let sha = file_sha_of(msg);
    match msg.kind {
        Kind::Text => {
            state.remember(TEXT_MIME, sha.as_str());
            let actions = win_actions_of(TEXT_MIME, sha.as_str(), line_of("text", payload.len()));
            WinStep::Text(lossy_text(payload), sha, actions)
        },
        Kind::Image => {
            let mime: &str = match &msg.mime {
                Some(m) => m.as_str(),
                None => "image/png",
            };
            match bytes_to_dibv5(payload) {
                Ok(dib) => {
                    state.remember(mime, sha.as_str());
                    let actions = win_actions_of(
                        "image/png",
                        sha.as_str(),
                        line_of("image", payload.len()),
                    );
                    WinStep::Image(dib, sha, actions)
                },
                Err(_) => WinStep::Nothing,
            }
        },
        Kind::File => {
            let dir = join_text(received, first_8(sha.as_str()));
            WinStep::File(sha, dir)
        },
        Kind::Join => WinStep::Nothing,
    }
}

/// What an unpacked archive offers: what its directory holds, or the directory itself
/// where it holds nothing.
pub open spec fn unpacked(dir: Seq<u8>, items: Seq<Seq<u8>>) -> Seq<Seq<u8>> {
    if items.len() == 0 {
        seq![dir]
    } else {
        items
    }
}

/// What an unpacked archive offers.
pub fn unpacked_items(dir: &[u8], items: Vec<Vec<u8>>) -> (res: Vec<Vec<u8>>)
    ensures
        res.deep_view() == unpacked(dir@, items.deep_view()),
{
    if items.len() > 0 {
        return items;
    }
    let mut out: Vec<Vec<u8>> = Vec::new();
    let d = crate::bytes::to_vec(dir);
    assert(d.deep_view() =~= d@);
    out.push(d);
    assert(out.deep_view() =~= seq![dir@]);
    out
}

/// What is said of an applied archive.
pub fn bundle_line(items: usize, bytes: usize) -> (res: String)
    ensures
        res@ == "applied file bundle -> "@ + decimal(items as nat) + " item(s) ("@ + decimal(
            bytes as nat,
        ) + " bytes)"@,
{
    let mut s = "applied file bundle -> ".to_string();
    s.append(print(items as u128).as_str());
    s.append(" item(s) (");
    s.append(print(bytes as u128).as_str());
    s.append(" bytes)");
    s
}

/// Content that was seen last is never sent again, and content that is held back is not
/// sent.
pub proof fn law_seen_or_held_back_is_not_sent(
    last: Option<Seq<char>>,
    noted: Option<Seq<char>>,
    sha: Seq<char>,
    held_back: bool,
)
    requires
        held_back || last == Some(sha) || noted == Some(sha),
    ensures
        verdict(last, noted, sha, held_back) != Verdict::Send,
{
}

/// Content that is not held back is sent, unless it was seen last or is noted as sent.
pub proof fn law_new_content_is_sent(
    last: Option<Seq<char>>,
    noted: Option<Seq<char>>,
    sha: Seq<char>,
)
    requires
        last != Some(sha),
        noted != Some(sha),
    ensures
        verdict(last, noted, sha, false) == Verdict::Send,
{
}

/// Content that another process sent is known, unless it is held back or was seen last.
pub proof fn law_noted_content_is_known(last: Option<Seq<char>>, sha: Seq<char>)
    requires
        last != Some(sha),
    ensures
        verdict(last, Some(sha), sha, false) == Verdict::Known,
{
}

/// A text that comes from another device goes on the clipboard as it is, with its digest as
/// the marker, and is then remembered and held back.
pub proof fn law_text_goes_on_the_clipboard(
    applied: Map<Seq<char>, Seq<char>>,
    own: Seq<char>,
    received: Seq<u8>,
    msg: MessageView,
    p: Seq<u8>,
    dib: Option<Seq<u8>>,
)
    requires
        crate::apply::is_news(applied, own, msg),
        msg.kind == Kind::Text,
        msg.payload == Some(p),
    ensures
        ({
            let sha = match msg.sha256 {
                Some(s) => s,
                None => sha256_text(p),
            };
            let key = "text/plain;charset=utf-8"@;
            &&& win_step(applied, own, received, msg, dib) matches WinStepView::Text(t, s, a) && t
                == lossy(p) && s == sha && a[0] == ActionView::Record && a[1]
                == ActionView::Suppress(key, sha, 2000)
            &&& win_applied_after(applied, own, msg, dib).dom().contains(key)
            &&& win_applied_after(applied, own, msg, dib)[key] == sha
        }),
{
}

/// An image that comes from another device and can be read goes on the clipboard as a bitmap,
/// with its digest as the marker, and is then remembered and held back.
pub proof fn law_image_goes_on_the_clipboard(
    applied: Map<Seq<char>, Seq<char>>,
    own: Seq<char>,
    received: Seq<u8>,
    msg: MessageView,
    p: Seq<u8>,
    dib: Seq<u8>,
)
    requires
        crate::apply::is_news(applied, own, msg),
        msg.kind == Kind::Image,
        msg.payload == Some(p),
    ensures
        ({
            let sha = match msg.sha256 {
                Some(s) => s,
                None => sha256_text(p),
            };
            &&& win_step(applied, own, received, msg, Some(dib)) matches WinStepView::Image(d, s, a)
                && d == dib && s == sha && a[0] == ActionView::Record && a[1]
                == ActionView::Suppress("image/png"@, sha, 2000)
            &&& msg.mime matches Some(m) ==> win_applied_after(applied, own, msg, Some(dib))
                == applied.insert(m, sha)
            &&& win_step(applied, own, received, msg, None) is Nothing
            &&& win_applied_after(applied, own, msg, None) == applied
        }),
{
}

/// A file that comes from another device is taken up, in a directory of the received files that
/// is named after its digest.
pub proof fn law_file_is_taken_up(
    applied: Map<Seq<char>, Seq<char>>,
    own: Seq<char>,
    received: Seq<u8>,
    msg: MessageView,
    p: Seq<u8>,
    dib: Option<Seq<u8>>,
)
    requires
        crate::apply::is_news(applied, own, msg),
        msg.kind == Kind::File,
        msg.payload == Some(p),
    ensures
        ({
            let sha = match msg.sha256 {
                Some(s) => s,
                None => sha256_text(p),
            };
            win_step(applied, own, received, msg, dib) matches WinStepView::File(s, d) && s == sha
                && d == crate::path::joined(
                received,
                vstd::utf8::encode_utf8(first_eight(sha)),
            )
        }),
        win_applied_after(applied, own, msg, dib) == applied,
{
}

/// What an unpacked archive holds is offered, all of it; an empty one offers its directory.
pub proof fn law_unpacked_is_offered(dir: Seq<u8>, items: Seq<Seq<u8>>)
    ensures
        items.len() > 0 ==> unpacked(dir, items) == items,
        items.len() == 0 ==> unpacked(dir, items) == seq![dir],
{
}

/// Text is looked at where it is not empty and within the limit, and is sent in UTF-8.
pub proof fn law_text_within_the_limit(t: Seq<char>, max: nat)
    ensures
        t.len() > 0 && vstd::utf8::encode_utf8(t).len() <= max ==> text_to_watch(t, max) == Some(
            vstd::utf8::encode_utf8(t),
        ),
        t.len() == 0 || vstd::utf8::encode_utf8(t).len() > max ==> text_to_watch(t, max) is None,
{
}

/// A bitmap that can be read is sent as the PNG of its pixels.
pub proof fn law_bitmap_is_sent_as_its_picture(d: Seq<u8>)
    requires
        crate::win_image::dib_error(d) is None,
    ensures
        ({
            let l = crate::win_image::layout(d);
            dib_png(d) == png_of_pixels(
                l.width as u32,
                l.height as u32,
                crate::win_image::pixels(d, l),
            )
        }),
{
}

/// The picture of an image message that can be read is written as a bitmap, as it is.
pub proof fn law_bitmap_of_a_message(msg: MessageView, p: Seq<u8>, width: u32, height: u32, rgba: Seq<u8>)
    requires
        msg.payload == Some(p),
    ensures
        image_pixels(p) is None ==> message_dib(msg) is None,
        image_pixels(p) == Some((width, height, rgba)) && rgba.len() == width * height * 4 && 0 < height
            <= 2147483648 ==> (message_dib(msg) matches Some(d) && crate::win_image::says_written(
            d,
            width as int,
            height as int,
        ) && crate::win_image::stores_pixels(d, rgba)),
{
    crate::codec::law_pixels_are_written_as_they_are(width, height, rgba);
}

/// An image within the limit is looked at as it is; an empty one, one over the limit and none
/// are not.
pub proof fn law_image_within_the_limit(png: Option<Seq<u8>>, max: nat)
    ensures
        png is Some && 0 < png->0.len() <= max ==> image_to_watch(png, max) == png,
        png is None || png->0.len() == 0 || png->0.len() > max ==> image_to_watch(png, max) is None,
{
}

} // verus!
