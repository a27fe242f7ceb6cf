//! Putting received messages on the clipboard.

use crate::clip::{item, Action, ActionView, Item, ItemView};
use crate::codec::{as_png, to_png};
use crate::consts::FILE_SUPPRESS_KEY;
use crate::hash::{sha256_hex, sha256_text};
use crate::image_mode::ImageMode;
use crate::message::{Kind, Message, MessageView};
use crate::number::{decimal, print};
use crate::path::join_text;
use crate::paths::{
    can_cut_8, first_8, first_eight, in_dir, is_tar, is_tar_payload, name_safe, safe_for_filename,
};
use crate::suppress::EVERY_DIGEST;
use crate::text::{chars_of, ends_with, same, starts_with};
use crate::textmap::TextMap;
use vstd::prelude::*;
use vstd::utf8::encode_utf8;

verus! {

/// The type of text messages.
pub const TEXT_MIME: &'static str = "text/plain;charset=utf-8";

/// How long content that was just applied is held back, in milliseconds.
pub const APPLIED_TTL_MS: u64 = 2000;

/// How long everything is held back while files are put on the clipboard, in
/// milliseconds.
pub const GUARD_TTL_MS: u64 = 1500;

/// The digest that was applied last, for each type of content.
pub struct Applier {
    applied: TextMap<String>,
}

impl View for Applier {
    type V = Map<Seq<char>, Seq<char>>;

    closed spec fn view(&self) -> Map<Seq<char>, Seq<char>> {
        self.applied@.map_values(|s: String| s@)
    }
}

/// The type under which a message's digest is looked up.
pub open spec fn lookup_key(msg: MessageView) -> Seq<char> {
    match msg.mime {
        Some(m) => m,
        None => "(no-mime)"@,
    }
}

/// The digest `sha` was the last applied under `key`.
pub open spec fn was_last(applied: Map<Seq<char>, Seq<char>>, key: Seq<char>, sha: Seq<char>) -> bool {
    applied.contains_key(key) && applied[key] == sha
}

/// A message that is not applied: the device's own, or one whose digest was the last
/// applied for its type.
pub open spec fn is_ignored(
    applied: Map<Seq<char>, Seq<char>>,
    own: Seq<char>,
    msg: MessageView,
) -> bool {
    msg.device_id == own || msg.sha256 is Some && was_last(
        applied,
        lookup_key(msg),
        msg.sha256->0,
    )
}

/// A digest to be held back and remembered under a key.
#[verifier::ext_equal]
pub struct MarkView {
    pub key: Seq<char>,
    pub sha: Seq<char>,
}

/// A digest to be held back and remembered under a key.
#[derive(Debug)]
pub struct Mark {
    pub key: String,
    pub sha: String,
}

impl View for Mark {
    type V = MarkView;

    open spec fn view(&self) -> MarkView {
        MarkView { key: self.key@, sha: self.sha@ }
    }
}

impl DeepView for Mark {
    type V = MarkView;

    open spec fn deep_view(&self) -> MarkView {
        self@
    }
}

/// What is put on the clipboard for a message, the digests to remember, and what to
/// say.
#[verifier::ext_equal]
pub struct OfferView {
    pub items: Seq<ItemView>,
    pub marks: Seq<MarkView>,
    pub say: Seq<char>,
}

/// What is put on the clipboard for a message, the digests to remember, and what to
/// say.
#[derive(Debug)]
pub struct Offer {
    pub items: Vec<Item>,
    pub marks: Vec<Mark>,
    pub say: String,
}

impl View for Offer {
    type V = OfferView;

    open spec fn view(&self) -> OfferView {
        OfferView {
            items: self.items.deep_view(),
            marks: self.marks.deep_view(),
            say: self.say@,
        }
    }
}

/// The mark for an optional digest.
pub open spec fn marks_of(key: Seq<char>, sha: Option<Seq<char>>) -> Seq<MarkView> {
    match sha {
        Some(s) => seq![MarkView { key, sha: s }],
        None => Seq::empty(),
    }
}

/// `applied` followed by a type, and a number of bytes in brackets.
pub open spec fn applied_line(what: Seq<char>, n: nat) -> Seq<char> {
    "applied "@ + what + " ("@ + decimal(n) + " bytes)"@
}

/// One item of a type, its digest under that type.
pub open spec fn single_offer(
    mime: Seq<char>,
    bytes: Seq<u8>,
    sha: Option<Seq<char>>,
    say: Seq<char>,
) -> OfferView {
    OfferView { items: seq![item(mime, bytes)], marks: marks_of(mime, sha), say }
}

/// What a text message puts on the clipboard.
pub open spec fn text_offer(payload: Seq<u8>, sha: Option<Seq<char>>) -> OfferView {
    single_offer(TEXT_MIME@, payload, sha, applied_line("text"@, payload.len()))
}

/// What an image message puts on the clipboard in a mode. `png` is the image as PNG,
/// where it can be converted.
pub open spec fn image_offer(
    mode: ImageMode,
    mime: Seq<char>,
    payload: Seq<u8>,
    sha: Option<Seq<char>>,
    png: Option<Seq<u8>>,
) -> OfferView {
    let as_it_is = single_offer(mime, payload, sha, applied_line(mime, payload.len()));
    match mode {
        ImageMode::ForcePng => match png {
            Some(p) => single_offer(
                "image/png"@,
                p,
                sha,
                applied_line("image/png"@, p.len()),
            ),
            None => as_it_is,
        },
        ImageMode::Passthrough => as_it_is,
        ImageMode::MultiMime => if mime == "image/png"@ {
            as_it_is
        } else {
            OfferView {
                items: seq![item(mime, payload)] + match png {
                    Some(p) => seq![item("image/png"@, p)],
                    None => Seq::empty(),
                },
                marks: marks_of(mime, sha) + match png {
                    Some(p) => seq![MarkView { key: "image/png"@, sha: sha256_text(p) }],
                    None => Seq::empty(),
                },
                say: "applied multi-mime "@ + mime + " (+png fallback)"@,
            }
        },
        ImageMode::SpoofPng => single_offer(
            "image/png"@,
            payload,
            sha,
            "applied spoof-png (orig "@ + decimal(payload.len()) + " bytes as image/png)"@,
        ),
    }
}

pub(crate) fn line_of(what: &str, n: usize) -> (res: String)
    ensures
        res@ == applied_line(what@, n as nat),
{
    let mut s = String::new();
    s.append("applied ");
    s.append(what);
    s.append(" (");
    s.append(print(n as u128).as_str());
    s.append(" bytes)");
    assert(s@ =~= applied_line(what@, n as nat));
    s
}

fn single(mime: &str, bytes: &[u8], sha: Option<&str>, say: String) -> (res: Offer)
    ensures
        res@ == single_offer(
            mime@,
            bytes@,
            match sha {
                Some(s) => Some(s@),
                None => None,
            },
            say@,
        ),
{
    let mut items: Vec<Item> = Vec::new();
    items.push(Item::new(mime, bytes));
    assert(items.deep_view() =~= seq![item(mime@, bytes@)]);
    let mut marks: Vec<Mark> = Vec::new();
    if let Some(s) = sha {
        marks.push(Mark { key: mime.to_string(), sha: s.to_string() });
        assert(marks.deep_view() =~= seq![MarkView { key: mime@, sha: s@ }]);
    } else {
        assert(marks.deep_view() =~= Seq::empty());
    }
    Offer { items, marks, say }
}

/// The text of an optional borrowed text.
pub open spec fn opt_str(o: Option<&str>) -> Option<Seq<char>> {
    match o {
        Some(s) => Some(s@),
        None => None,
    }
}

/// What a text message puts on the clipboard.
pub fn text_offer_of(payload: &[u8], sha: Option<&str>) -> (res: Offer)
    ensures
        res@ == text_offer(payload@, opt_str(sha)),
{
    single(TEXT_MIME, payload, sha, line_of("text", payload.len()))
}

/// What an image message puts on the clipboard, given the image as PNG.
pub fn image_offer_of(
    mode: ImageMode,
    mime: &str,
    payload: &[u8],
    sha: Option<&str>,
    png: Option<Vec<u8>>,
) -> (res: Offer)
    ensures
        res@ == image_offer(
            mode,
            mime@,
            payload@,
            opt_str(sha),
            crate::wire::opt_payload(png),
        ),
{
    match mode {
        ImageMode::ForcePng => match png {
            Some(p) => single("image/png", p.as_slice(), sha, line_of("image/png", p.len())),
            None => single(mime, payload, sha, line_of(mime, payload.len())),
        },
        ImageMode::Passthrough => single(mime, payload, sha, line_of(mime, payload.len())),
        ImageMode::MultiMime => {
            if same(mime, "image/png") {
                return single(mime, payload, sha, line_of(mime, payload.len()));
            }
            let mut say = String::new();
            say.append("applied multi-mime ");
            say.append(mime);
            say.append(" (+png fallback)");
            let mut offer = single(mime, payload, sha, say);
            let ghost before = offer@;
            if let Some(p) = png {
                let png_sha = sha256_hex(p.as_slice());
                offer.marks.push(Mark { key: "image/png".to_string(), sha: png_sha });
                offer.items.push(Item { mime: "image/png".to_string(), bytes: p });
                assert(offer@.items =~= before.items + seq![item("image/png"@, p@)]);
                assert(offer@.marks =~= before.marks + seq![
                    MarkView { key: "image/png"@, sha: sha256_text(p@) },
                ]);
            } else {
                assert(offer@.items =~= before.items + Seq::<ItemView>::empty());
                assert(offer@.marks =~= before.marks + Seq::<MarkView>::empty());
            }
            assert(offer@.say =~= "applied multi-mime "@ + mime@ + " (+png fallback)"@);
            offer
        },
        ImageMode::SpoofPng => {
            let mut say = String::new();
            say.append("applied spoof-png (orig ");
            say.append(print(payload.len() as u128).as_str());
            say.append(" bytes as image/png)");
            assert(say@ =~= "applied spoof-png (orig "@ + decimal(payload@.len())
                + " bytes as image/png)"@);
            single("image/png", payload, sha, say)
        },
    }
}

/// What an image message puts on the clipboard.
pub fn offer_image(mode: ImageMode, mime: &str, payload: &[u8], sha: Option<&str>) -> (res: Offer)
    ensures
        res@ == image_offer(mode, mime@, payload@, opt_str(sha), as_png(payload@)),
{
    let wanted = mode == ImageMode::ForcePng || mode == ImageMode::MultiMime;
    let png: Option<Vec<u8>> = if wanted {
        match to_png(payload) {
            Ok(p) => Some(p),
            Err(_) => None,
        }
    } else {
        None
    };
    image_offer_of(mode, mime, payload, sha, png)
}

/// The actions that hold back the marked digests.
pub open spec fn suppress_marks(marks: Seq<MarkView>) -> Seq<ActionView> {
    marks.map_values(|m: MarkView| ActionView::Suppress(m.key, m.sha, APPLIED_TTL_MS))
}

/// What is remembered after the marks.
pub open spec fn remembered(
    applied: Map<Seq<char>, Seq<char>>,
    marks: Seq<MarkView>,
) -> Map<Seq<char>, Seq<char>>
    decreases marks.len(),
{
    if marks.len() == 0 {
        applied
    } else {
        remembered(applied, marks.drop_last()).insert(marks.last().key, marks.last().sha)
    }
}

/// What a text message makes the node do.
pub open spec fn text_actions(o: OfferView) -> Seq<ActionView> {
    seq![ActionView::Copy(o.items), ActionView::Record] + suppress_marks(o.marks)
        + seq![ActionView::Say(o.say)]
}

/// What an image message makes the node do.
pub open spec fn image_actions(o: OfferView) -> Seq<ActionView> {
    seq![ActionView::Record, ActionView::Copy(o.items)] + suppress_marks(o.marks)
        + seq![ActionView::Say(o.say)]
}

/// The digest of a file message: its own, or that of its payload.
pub open spec fn file_sha(msg: MessageView) -> Seq<char> {
    match msg.sha256 {
        Some(s) => s,
        None => sha256_text(msg.payload->0),
    }
}

/// The name of a file message: its own, or one made of its digest.
pub open spec fn file_name(msg: MessageView) -> Seq<char> {
    match msg.name {
        Some(n) => n,
        None => "multicliprelay-"@ + first_eight(file_sha(msg)),
    }
}

/// A digest can be cut where a file needs it: after eight bytes, for its directory, and
/// for its name where it has none.
pub open spec fn digest_names_file(sha: Seq<char>, named: bool) -> bool {
    &&& can_cut_8(sha)
    &&& !named ==> encode_utf8(sha).len() >= 8
}

/// A message can be taken: where its file is to be stored, the digest that it gives can be cut
/// where the file's name needs it.
pub open spec fn can_take(
    applied: Map<Seq<char>, Seq<char>>,
    own: Seq<char>,
    msg: MessageView,
) -> bool {
    msg.kind == Kind::File && msg.payload is Some && msg.sha256 is Some && !is_ignored(
        applied,
        own,
        msg,
    ) && !was_last(applied, FILE_SUPPRESS_KEY@, msg.sha256->0) ==> digest_names_file(
        msg.sha256->0,
        msg.name is Some,
    )
}

/// `s` without the endings `end`, however many there are.
pub open spec fn without_endings(s: Seq<char>, end: Seq<char>) -> Seq<char>
    decreases s.len(),
{
    if end.len() > 0 && end.is_suffix_of(s) {
        without_endings(s.take(s.len() - end.len()), end)
    } else {
        s
    }
}

/// A bundle's name without its ending.
pub open spec fn stem(name: Seq<char>) -> Seq<char> {
    without_endings(without_endings(name, ".tar"@), ".TAR"@)
}

/// A name of one directory, made of `s`: no separators, not empty, and neither of the
/// two names with dots.
pub open spec fn directory_name(s: Seq<char>) -> Seq<char> {
    let t = s.map_values(|c: char| if c == '/' || c == '\\' || c == '\0' { '_' } else { c });
    if t.len() == 0 {
        "multicliprelay"@
    } else if t == "."@ || t == ".."@ {
        "_"@ + t
    } else {
        t
    }
}

/// What is to be done with a received file.
#[verifier::ext_equal]
pub struct FileJobView {
    pub sha: Seq<char>,
    pub name: Seq<char>,
    pub is_bundle: bool,
    pub out_dir: Seq<u8>,
    pub out_path: Seq<u8>,
    pub wrapper: Seq<char>,
    pub generic: bool,
}

/// What is to be done with a received file.
#[derive(Debug)]
pub struct FileJob {
    pub sha: String,
    pub name: String,
    /// It is an archive, to be unpacked.
    pub is_bundle: bool,
    /// The directory for it.
    pub out_dir: Vec<u8>,
    /// The file for it, where it is no archive.
    pub out_path: Vec<u8>,
    /// The name for one directory that holds what the archive held.
    pub wrapper: String,
    /// The archive's name says nothing but that it is a bundle.
    pub generic: bool,
}

impl View for FileJob {
    type V = FileJobView;

    open spec fn view(&self) -> FileJobView {
        FileJobView {
            sha: self.sha@,
            name: self.name@,
            is_bundle: self.is_bundle,
            out_dir: self.out_dir@,
            out_path: self.out_path@,
            wrapper: self.wrapper@,
            generic: self.generic,
        }
    }
}

/// What is to be done with a file message. An archive gets a directory named after its
/// digest and its name; another file keeps its name, inside a directory named after
/// its digest.
pub open spec fn file_job(received: Seq<u8>, msg: MessageView) -> FileJobView {
    let sha = file_sha(msg);
    let name = file_name(msg);
    let bundle = is_tar(name, msg.mime);
    let dir = if bundle {
        in_dir(received, first_eight(sha) + "_"@ + stem(name_safe(name)))
    } else {
        in_dir(received, first_eight(sha))
    };
    FileJobView {
        sha,
        name,
        is_bundle: bundle,
        out_dir: dir,
        out_path: in_dir(dir, name_safe(name)),
        wrapper: directory_name(stem(name)),
        generic: "multicliprelay-bundle-"@.is_prefix_of(stem(name)),
    }
}

/// What a message makes the node do.
pub enum StepView {
    /// Nothing.
    Nothing,
    /// The actions, in order.
    Do(Seq<ActionView>),
    /// Note the message, then take up the file.
    File(FileJobView),
}

/// What a message makes the node do.
#[derive(Debug)]
pub enum Step {
    /// Nothing.
    Nothing,
    /// The actions, in order.
    Do(Vec<Action>),
    /// Note the message, then take up the file.
    File(FileJob),
}

impl View for Step {
    type V = StepView;

    open spec fn view(&self) -> StepView {
        match self {
            Step::Nothing => StepView::Nothing,
            Step::Do(a) => StepView::Do(a.deep_view()),
            Step::File(j) => StepView::File(j@),
        }
    }
}

/// The image type of a message: PNG where it gives none.
pub open spec fn image_mime_or_png(msg: MessageView) -> Seq<char> {
    match msg.mime {
        Some(m) => m,
        None => "image/png"@,
    }
}

/// The message's file is the one that was applied last.
pub open spec fn file_repeats(applied: Map<Seq<char>, Seq<char>>, msg: MessageView) -> bool {
    was_last(applied, FILE_SUPPRESS_KEY@, file_sha(msg))
}

/// What a message makes the node do.
pub open spec fn step(
    applied: Map<Seq<char>, Seq<char>>,
    own: Seq<char>,
    mode: ImageMode,
    received: Seq<u8>,
    msg: MessageView,
) -> StepView {
    if is_ignored(applied, own, msg) || msg.payload is None {
        StepView::Nothing
    } else {
        match msg.kind {
            Kind::Text => StepView::Do(text_actions(text_offer(msg.payload->0, msg.sha256))),
            Kind::Image => StepView::Do(
                image_actions(
                    image_offer(
                        mode,
                        image_mime_or_png(msg),
                        msg.payload->0,
                        msg.sha256,
                        as_png(msg.payload->0),
                    ),
                ),
            ),
            Kind::File => if file_repeats(applied, msg) {
                StepView::Do(seq![ActionView::Record])
            } else {
                StepView::File(file_job(received, msg))
            },
            Kind::Join => StepView::Nothing,
        }
    }
}

/// The digests that a message leaves remembered.
pub open spec fn step_marks(mode: ImageMode, msg: MessageView) -> Seq<MarkView> {
    match msg.kind {
        Kind::Text => text_offer(msg.payload->0, msg.sha256).marks,
        Kind::Image => image_offer(
            mode,
            image_mime_or_png(msg),
            msg.payload->0,
            msg.sha256,
            as_png(msg.payload->0),
        ).marks,
        _ => Seq::empty(),
    }
}

/// What is remembered after a message. A file is remembered when it has been put on
/// the clipboard.
pub open spec fn applied_after(
    applied: Map<Seq<char>, Seq<char>>,
    own: Seq<char>,
    mode: ImageMode,
    msg: MessageView,
) -> Map<Seq<char>, Seq<char>> {
    if is_ignored(applied, own, msg) || msg.payload is None {
        applied
    } else {
        remembered(applied, step_marks(mode, msg))
    }
}

fn push_suppress(marks: &Vec<Mark>, out: &mut Vec<Action>)
    ensures
        final(out).deep_view() == old(out).deep_view() + suppress_marks(marks.deep_view()),
{
    let ghost before = out.deep_view();
    let ghost all = marks.deep_view();
    let mut i: usize = 0;
    assert(before + suppress_marks(all.take(0)) =~= before);
    while i < marks.len()
        invariant
            i <= marks@.len(),
            all == marks.deep_view(),
            all.len() == marks@.len(),
            out.deep_view() == before + suppress_marks(all.take(i as int)),
        decreases marks@.len() - i,
    {
        let a = Action::Suppress(marks[i].key.clone(), marks[i].sha.clone(), APPLIED_TTL_MS);
        let ghost now = out.deep_view();
        assert(all[i as int] == marks@[i as int]@);
        out.push(a);
        assert(out.deep_view() =~= now.push(a@));
        assert(suppress_marks(all.take(i + 1)) =~= suppress_marks(all.take(i as int)).push(a@));
        i += 1;
    }
    assert(all.take(i as int) =~= all);
}

fn opt_as_str(o: &Option<String>) -> (res: Option<&str>)
    ensures
        opt_str(res) == crate::wire::opt_text(*o),
{
    match o {
        Some(s) => Some(s.as_str()),
        None => None,
    }
}

/// `s` without the endings `end`.
fn strip_endings(s: &str, end: &str) -> (res: String)
    ensures
        res@ == without_endings(s@, end@),
{
    let mut out = s.to_string();
    let k = end.unicode_len();
    if k == 0 {
        return out;
    }
    while ends_with(out.as_str(), end)
        invariant
            k == end@.len(),
            k > 0,
            without_endings(s@, end@) == without_endings(out@, end@),
        decreases out@.len(),
    {
        let n = out.as_str().unicode_len();
        out = out.as_str().substring_char(0, n - k).to_string();
    }
    out
}

fn stem_of(name: &str) -> (res: String)
    ensures
        res@ == stem(name@),
{
    let s = strip_endings(name, ".tar");
    strip_endings(s.as_str(), ".TAR")
}

fn directory_name_of(s: &str) -> (res: String)
    ensures
        res@ == directory_name(s@),
{
    let ghost put = |c: char| if c == '/' || c == '\\' || c == '\0' { '_' } else { c };
    let cs = chars_of(s);
    let mut t = String::new();
    let mut i: usize = 0;
    assert(s@.take(0).map_values(put) =~= Seq::<char>::empty());
    while i < cs.len()
        invariant
            i <= cs@.len(),
            cs@ == s@,
            put == (|c: char| if c == '/' || c == '\\' || c == '\0' { '_' } else { c }),
            t@ == s@.take(i as int).map_values(put),
        decreases cs@.len() - i,
    {
        let c = cs[i];
        if c == '/' || c == '\\' || c == '\0' {
            t.push('_');
        } else {
            t.push(c);
        }
        assert(t@ =~= s@.take(i + 1).map_values(put));
        i += 1;
    }
    assert(s@.take(i as int) =~= s@);
    if t.as_str().is_empty() {
        return "multicliprelay".to_string();
    }
    if same(t.as_str(), ".") || same(t.as_str(), "..") {
        let mut u = "_".to_string();
        u.append(t.as_str());
        return u;
    }
    t
}

/// The digest of a file message.
pub(crate) fn file_sha_of(msg: &Message) -> (res: String)
    requires
        msg.payload is Some,
    ensures
        res@ == file_sha(msg@),
        msg.sha256 is None ==> digest_names_file(res@, false),
{
    match &msg.sha256 {
        Some(s) => s.clone(),
        None => match &msg.payload {
            Some(p) => {
                let sha = sha256_hex(p.as_slice());
                proof {
                    assert(vstd::utf8::is_ascii_chars(sha@));
                    crate::paths::lemma_first_eight_ascii(sha@);
                    vstd::utf8::is_ascii_chars_encode_utf8(sha@);
                }
                sha
            },
            None => String::new(),
        },
    }
}

/// Whether the digest that a message gives, if it gives one, can be cut where its file
/// needs it.
pub fn file_is_nameable(msg: &Message) -> (res: bool)
    ensures
        res == (msg.sha256 is Some ==> digest_names_file(msg.sha256->0@, msg.name is Some)),
{
    match &msg.sha256 {
        Some(sha) => {
            let b = sha.as_str().as_bytes();
            if b.len() < 8 {
                return msg.name.is_some();
            }
            sha.as_str().is_char_boundary(8)
        },
        None => true,
    }
}

/// What is to be done with a file message.
fn file_job_of(received: &[u8], msg: &Message, sha: String) -> (res: FileJob)
    requires
        sha@ == file_sha(msg@),
        digest_names_file(sha@, msg.name is Some),
    ensures
        res@ == file_job(received@, msg@),
{
    let name: String = match &msg.name {
        Some(n) => n.clone(),
        None => {
            let mut s = "multicliprelay-".to_string();
            s.append(first_8(sha.as_str()));
            s
        },
    };
    let safe = safe_for_filename(name.as_str());
    let is_bundle = is_tar_payload(name.as_str(), opt_as_str(&msg.mime));
    let mut dir_name = first_8(sha.as_str()).to_string();
    if is_bundle {
        dir_name.append("_");
        dir_name.append(stem_of(safe.as_str()).as_str());
    }
    let out_dir = join_text(received, dir_name.as_str());
    let out_path = join_text(out_dir.as_slice(), safe.as_str());
    let raw = stem_of(name.as_str());
    let wrapper = directory_name_of(raw.as_str());
    let generic = starts_with(raw.as_str(), "multicliprelay-bundle-");
    FileJob { sha, name, is_bundle, out_dir, out_path, wrapper, generic }
}

impl Applier {
    /// No type is listed twice.
    pub closed spec fn wf(&self) -> bool {
        self.applied.wf()
    }

    /// Nothing applied yet.
    pub fn new() -> (res: Applier)
        ensures
            res.wf(),
            res@ == Map::<Seq<char>, Seq<char>>::empty(),
    {
        let res = Applier { applied: TextMap::new() };
        assert(res@ =~= Map::<Seq<char>, Seq<char>>::empty());
        res
    }

    fn last_is(&self, key: &str, sha: &str) -> (res: bool)
        requires
            self.wf(),
        ensures
            res == was_last(self@, key@, sha@),
    {
        match self.applied.get(key) {
            Some(s) => same(s.as_str(), sha),
            None => false,
        }
    }

    pub(crate) fn remember(&mut self, key: &str, sha: &str)
        requires
            old(self).wf(),
        ensures
            final(self).wf(),
            final(self)@ == old(self)@.insert(key@, sha@),
    {
        let ghost before = self@;
        self.applied.insert(key, sha.to_string());
        assert(self@ =~= before.insert(key@, sha@));
    }

    fn remember_all(&mut self, marks: &Vec<Mark>)
        requires
            old(self).wf(),
        ensures
            final(self).wf(),
            final(self)@ == remembered(old(self)@, marks.deep_view()),
    {
        let ghost start = self@;
        let ghost all = marks.deep_view();
        let mut i: usize = 0;
        assert(all.take(0) =~= Seq::<MarkView>::empty());
        while i < marks.len()
            invariant
                i <= marks@.len(),
                all == marks.deep_view(),
                all.len() == marks@.len(),
                self.wf(),
                self@ == remembered(start, all.take(i as int)),
            decreases marks@.len() - i,
        {
            assert(all.take(i + 1).drop_last() =~= all.take(i as int));
            assert(all.take(i + 1).last() == marks@[i as int]@);
            self.remember(marks[i].key.as_str(), marks[i].sha.as_str());
            i += 1;
        }
        assert(all.take(i as int) =~= all);
    }

    /// Whether a message is passed over.
    pub(crate) fn ignores(&self, own: &str, msg: &Message) -> (res: bool)
        requires
            self.wf(),
        ensures
            res == is_ignored(self@, own@, msg@),
    {
        if same(msg.device_id.as_str(), own) {
            return true;
        }
        match &msg.sha256 {
            Some(sha) => {
                let key: &str = match &msg.mime {
                    Some(m) => m.as_str(),
                    None => "(no-mime)",
                };
                self.last_is(key, sha.as_str())
            },
            None => false,
        }
    }

    /// Whether a message can be taken. One whose file was the last applied can, whatever its
    /// digest.
    pub fn takes(&self, own: &str, msg: &Message) -> (res: bool)
        requires
            self.wf(),
        ensures
            res == can_take(self@, own@, msg@),
    {
        if msg.kind != Kind::File || msg.payload.is_none() || self.ignores(own, msg) {
            return true;
        }
        match &msg.sha256 {
            Some(sha) => self.last_is(FILE_SUPPRESS_KEY, sha.as_str()) || file_is_nameable(msg),
            None => true,
        }
    }

    /// Takes a message: what to do with it. `own` is this device's identifier, and
    /// `received` the directory for received files.
    pub fn on_message(&mut self, own: &str, mode: ImageMode, received: &[u8], msg: &Message) -> (res:
        Step)
        requires
            old(self).wf(),
            can_take(old(self)@, own@, msg@),
        ensures
            final(self).wf(),
            final(self)@ == applied_after(old(self)@, own@, mode, msg@),
            res@ == step(old(self)@, own@, mode, received@, msg@),
    {
        let ghost start = self@;
        if self.ignores(own, msg) {
            return Step::Nothing;
        }
        let payload: &[u8] = match &msg.payload {
            Some(p) => p.as_slice(),
            None => return Step::Nothing,
        };
        let sha = opt_as_str(&msg.sha256);
        match msg.kind {
            Kind::Text => {
                let offer = text_offer_of(payload, sha);
                self.remember_all(&offer.marks);
                let mut out: Vec<Action> = Vec::new();
                let ghost o = offer@;
                let Offer { items, marks, say } = offer;
                out.push(Action::Copy(items));
                out.push(Action::Record);
                assert(out.deep_view() =~= seq![ActionView::Copy(o.items), ActionView::Record]);
                push_suppress(&marks, &mut out);
                out.push(Action::Say(say));
                assert(out.deep_view() =~= text_actions(o));
                Step::Do(out)
            },
            Kind::Image => {
                let mime: &str = match &msg.mime {
                    Some(m) => m.as_str(),
                    None => "image/png",
                };
                let offer = offer_image(mode, mime, payload, sha);
                self.remember_all(&offer.marks);
                let mut out: Vec<Action> = Vec::new();
                let ghost o = offer@;
                let Offer { items, marks, say } = offer;
                out.push(Action::Record);
                out.push(Action::Copy(items));
                assert(out.deep_view() =~= seq![ActionView::Record, ActionView::Copy(o.items)]);
                push_suppress(&marks, &mut out);
                out.push(Action::Say(say));
                assert(out.deep_view() =~= image_actions(o));
                Step::Do(out)
            },
            Kind::File => {
                let sha = file_sha_of(msg);
                if self.last_is(FILE_SUPPRESS_KEY, sha.as_str()) {
                    let mut out: Vec<Action> = Vec::new();
                    out.push(Action::Record);
                    assert(out.deep_view() =~= seq![ActionView::Record]);
                    return Step::Do(out);
                }
                Step::File(file_job_of(received, msg, sha))
            },
            Kind::Join => Step::Nothing,
        }
    }

    /// The file with this digest has been put on the clipboard.
    pub fn on_file_applied(&mut self, sha: &str) -> (res: Action)
        requires
            old(self).wf(),
        ensures
            final(self).wf(),
            final(self)@ == old(self)@.insert(FILE_SUPPRESS_KEY@, sha@),
            res@ == ActionView::Suppress(FILE_SUPPRESS_KEY@, sha@, APPLIED_TTL_MS),
    {
        self.remember(FILE_SUPPRESS_KEY, sha);
        Action::Suppress(FILE_SUPPRESS_KEY.to_string(), sha.to_string(), APPLIED_TTL_MS)
    }
}

/// What holds back the clipboard's changes while a file is put on it.
pub open spec fn guard() -> Seq<ActionView> {
    seq![
        ActionView::Suppress(FILE_SUPPRESS_KEY@, EVERY_DIGEST@, GUARD_TTL_MS),
        ActionView::Suppress(TEXT_MIME@, EVERY_DIGEST@, GUARD_TTL_MS),
        ActionView::Suppress("text/plain"@, EVERY_DIGEST@, GUARD_TTL_MS),
    ]
}

/// The actions that hold back the clipboard's changes while a file is put on it.
pub fn guard_actions() -> (res: Vec<Action>)
    ensures
        res.deep_view() == guard(),
{
    let mut out: Vec<Action> = Vec::new();
    out.push(Action::Suppress(FILE_SUPPRESS_KEY.to_string(), EVERY_DIGEST.to_string(), GUARD_TTL_MS));
    out.push(Action::Suppress(TEXT_MIME.to_string(), EVERY_DIGEST.to_string(), GUARD_TTL_MS));
    out.push(Action::Suppress("text/plain".to_string(), EVERY_DIGEST.to_string(), GUARD_TTL_MS));
    assert(out.deep_view() =~= guard());
    out
}

/// A device never applies its own message.
pub proof fn law_own_messages_are_ignored(
    applied: Map<Seq<char>, Seq<char>>,
    mode: ImageMode,
    received: Seq<u8>,
    msg: MessageView,
)
    ensures
        step(applied, msg.device_id, mode, received, msg) is Nothing,
        applied_after(applied, msg.device_id, mode, msg) == applied,
{
}

/// A text message of the usual type is not applied a second time in a row.
pub proof fn law_repeated_text_is_ignored(
    applied: Map<Seq<char>, Seq<char>>,
    own: Seq<char>,
    mode: ImageMode,
    received: Seq<u8>,
    msg: MessageView,
)
    requires
        msg.kind == Kind::Text,
        msg.mime == Some(TEXT_MIME@),
        msg.sha256 is Some,
        msg.payload is Some,
    ensures
        step(applied_after(applied, own, mode, msg), own, mode, received, msg) is Nothing,
{
    reveal_with_fuel(remembered, 2);
    assert(step_marks(mode, msg).drop_last() =~= Seq::<MarkView>::empty());
}

/// An image is not applied a second time in a row where it is offered under its own
/// type.
pub proof fn law_repeated_image_is_ignored(
    applied: Map<Seq<char>, Seq<char>>,
    own: Seq<char>,
    mode: ImageMode,
    received: Seq<u8>,
    msg: MessageView,
)
    requires
        msg.kind == Kind::Image,
        msg.mime is Some,
        mode == ImageMode::Passthrough || mode == ImageMode::MultiMime || msg.mime == Some(
            "image/png"@,
        ),
        msg.sha256 is Some,
        msg.payload is Some,
    ensures
        step(applied_after(applied, own, mode, msg), own, mode, received, msg) is Nothing,
{
    reveal_with_fuel(remembered, 3);
    let marks = step_marks(mode, msg);
    if marks.len() == 2 {
        assert(marks.drop_last().drop_last() =~= Seq::<MarkView>::empty());
        assert(marks.drop_last().last() == marks[0]);
    } else {
        assert(marks.drop_last() =~= Seq::<MarkView>::empty());
    }
}

/// A file that has been applied is only noted when it comes again.
pub proof fn law_repeated_file_is_only_noted(
    applied: Map<Seq<char>, Seq<char>>,
    own: Seq<char>,
    mode: ImageMode,
    received: Seq<u8>,
    msg: MessageView,
)
    requires
        msg.kind == Kind::File,
        msg.payload is Some,
    ensures
        ({
            let s = step(
                applied.insert(FILE_SUPPRESS_KEY@, file_sha(msg)),
                own,
                mode,
                received,
                msg,
            );
            s is Nothing || s == StepView::Do(seq![ActionView::Record])
        }),
{
}

/// A message comes from another device, and its digest was not the last applied for its type.
pub open spec fn is_news(
    applied: Map<Seq<char>, Seq<char>>,
    own: Seq<char>,
    msg: MessageView,
) -> bool {
    &&& msg.device_id != own
    &&& msg.payload is Some
    &&& (msg.sha256 is None || match msg.mime {
        Some(m) => !(applied.contains_key(m) && applied[m] == msg.sha256->0),
        None => !(applied.contains_key("(no-mime)"@) && applied["(no-mime)"@] == msg.sha256->0),
    })
}

/// The text of a message is put on the clipboard as it is, and nothing else is; the message is
/// noted, and where it gives a digest that is held back for two seconds and remembered.
pub proof fn law_text_is_put_on_the_clipboard(
    applied: Map<Seq<char>, Seq<char>>,
    own: Seq<char>,
    mode: ImageMode,
    received: Seq<u8>,
    msg: MessageView,
)
    requires
        msg.kind == Kind::Text,
        is_news(applied, own, msg),
    ensures
        ({
            let s = step(applied, own, mode, received, msg);
            let after = applied_after(applied, own, mode, msg);
            let text = "text/plain;charset=utf-8"@;
            &&& s is Do
            &&& s->Do_0[0] matches ActionView::Copy(items) && items.len() == 1 && items[0].mime
                == text && items[0].bytes == msg.payload->0
            &&& forall|i: int| 0 < i < s->Do_0.len() ==> (#[trigger] s->Do_0[i]) !is Copy
            &&& s->Do_0.contains(ActionView::Record)
            &&& msg.sha256 matches Some(sha) ==> s->Do_0.contains(
                ActionView::Suppress(text, sha, 2000),
            ) && after.contains_key(text) && after[text] == sha
            &&& forall|k: Seq<char>|
                k != text ==> (#[trigger] after.contains_key(k) <==> applied.contains_key(k)) && (
                applied.contains_key(k) ==> after[k] == applied[k])
        }),
{
    let s = step(applied, own, mode, received, msg);
    let o = text_offer(msg.payload->0, msg.sha256);
    reveal_with_fuel(remembered, 2);
    if msg.sha256 is Some {
        assert(o.marks.drop_last() =~= Seq::<MarkView>::empty());
        assert(s->Do_0[2] == ActionView::Suppress(TEXT_MIME@, msg.sha256->0, 2000));
    }
    assert(s->Do_0[1] == ActionView::Record);
}

/// What an image message puts on the clipboard: the image itself in its own type, or as PNG
/// where the mode asks for it and it can be converted; beside it in the mode for several types;
/// and under the name of PNG in the mode that claims so.
pub proof fn law_image_is_put_on_the_clipboard(
    applied: Map<Seq<char>, Seq<char>>,
    own: Seq<char>,
    mode: ImageMode,
    received: Seq<u8>,
    msg: MessageView,
)
    requires
        msg.kind == Kind::Image,
        is_news(applied, own, msg),
    ensures
        ({
            let s = step(applied, own, mode, received, msg);
            let own_type = if msg.mime is Some {
                msg.mime->0
            } else {
                "image/png"@
            };
            let original = ItemView { mime: own_type, bytes: msg.payload->0 };
            let png = as_png(msg.payload->0);
            &&& s is Do
            &&& s->Do_0[0] is Record
            &&& s->Do_0[1] is Copy
            &&& forall|i: int| 1 < i < s->Do_0.len() ==> (#[trigger] s->Do_0[i]) !is Copy
            &&& ({
                let items = s->Do_0[1]->Copy_0;
                match mode {
                    ImageMode::Passthrough => items == seq![original],
                    ImageMode::ForcePng => items.len() == 1 && (png is Some ==> items[0].mime
                        == "image/png"@ && items[0].bytes == png->0) && (png is None ==> items[0]
                        == original),
                    ImageMode::MultiMime => items[0] == original && (if own_type != "image/png"@
                        && png is Some {
                        items.len() == 2 && items[1].mime == "image/png"@ && items[1].bytes
                            == png->0
                    } else {
                        items.len() == 1
                    }),
                    ImageMode::SpoofPng => items.len() == 1 && items[0].mime == "image/png"@
                        && items[0].bytes == msg.payload->0,
                }
            })
            &&& msg.sha256 matches Some(sha) ==> exists|i: int|
                0 <= i < s->Do_0.len() && (#[trigger] s->Do_0[i]) == ActionView::Suppress(
                    s->Do_0[1]->Copy_0[0].mime,
                    sha,
                    2000,
                )
        }),
{
    let s = step(applied, own, mode, received, msg);
    if msg.sha256 is Some {
        assert(s->Do_0[2] == ActionView::Suppress(
            s->Do_0[1]->Copy_0[0].mime,
            msg.sha256->0,
            2000,
        ));
    }
}

/// Only the device's own messages, repeated ones and those without content are passed over:
/// text, images and files of other devices are not.
pub proof fn law_news_is_not_passed_over(
    applied: Map<Seq<char>, Seq<char>>,
    own: Seq<char>,
    mode: ImageMode,
    received: Seq<u8>,
    msg: MessageView,
)
    ensures
        step(applied, own, mode, received, msg) is Nothing <==> msg.kind == Kind::Join || !is_news(
            applied,
            own,
            msg,
        ),
        !is_news(applied, own, msg) || msg.kind == Kind::Join || msg.kind == Kind::File
            ==> applied_after(applied, own, mode, msg) == applied,
{
}

/// A file that comes for the first time is taken up under its own name and digest; an archive,
/// known by its type or its name, is to be unpacked.
pub proof fn law_files_are_taken_up(
    applied: Map<Seq<char>, Seq<char>>,
    own: Seq<char>,
    mode: ImageMode,
    received: Seq<u8>,
    msg: MessageView,
)
    requires
        msg.kind == Kind::File,
        is_news(applied, own, msg),
        msg.sha256 is Some,
        !(applied.contains_key("application/x-multicliprelay-file"@)
            && applied["application/x-multicliprelay-file"@] == msg.sha256->0),
    ensures
        ({
            let s = step(applied, own, mode, received, msg);
            &&& s is File
            &&& s->File_0.sha == msg.sha256->0
            &&& msg.name is Some ==> s->File_0.name == msg.name->0
            &&& msg.mime == Some("application/x-tar"@) ==> s->File_0.is_bundle
            &&& msg.mime != Some("application/x-tar"@) && msg.name is Some && msg.name->0.len() < 4
                ==> !s->File_0.is_bundle
        }),
{
    reveal_strlit(".tar");
}

/// The name of a bundle without its ending is what stands before it.
pub proof fn law_stem_of_a_bundle(base: Seq<char>)
    requires
        !".tar"@.is_suffix_of(base),
        !".TAR"@.is_suffix_of(base),
    ensures
        stem(base) == base,
        stem(base + ".tar"@) == base,
        stem(base + ".TAR"@) == base,
{
    reveal_strlit(".tar");
    reveal_strlit(".TAR");
    let a = base + ".tar"@;
    let b = base + ".TAR"@;
    let n = base.len() as int;
    reveal_with_fuel(without_endings, 2);
    assert(".tar"@ =~= a.subrange(n, n + 4));
    assert(a.take(n) =~= base);
    assert(".TAR"@ =~= b.subrange(n, n + 4));
    assert(b.take(n) =~= base);
    assert(!".tar"@.is_suffix_of(b)) by {
        if ".tar"@.is_suffix_of(b) {
            assert(b.subrange(n, n + 4)[1] == ".tar"@[1]);
        }
    }
}

/// The name of a directory holds no separators, is not empty and is neither of the two names
/// with dots; a text that can be such a name stays as it is.
pub proof fn law_name_of_a_directory(s: Seq<char>, i: int)
    ensures
        directory_name(s).len() > 0,
        !directory_name(s).contains('/'),
        !directory_name(s).contains('\\'),
        !directory_name(s).contains('\0'),
        directory_name(s) != "."@ && directory_name(s) != ".."@,
        s.len() > 0 && s != "."@ && s != ".."@ && !s.contains('/') && !s.contains('\\')
            && !s.contains('\0') ==> directory_name(s) == s,
{
    reveal_strlit("multicliprelay");
    reveal_strlit(".");
    reveal_strlit("..");
    reveal_strlit("_");
    let put = |c: char| if c == '/' || c == '\\' || c == '\0' { '_' } else { c };
    let t = s.map_values(put);
    let d = directory_name(s);
    assert(t.len() == s.len());
    assert forall|k: int| 0 <= k < t.len() implies #[trigger] t[k] != '/' && t[k] != '\\' && t[k]
        != '\0' by {
        assert(t[k] == put(s[k]));
    }
    assert forall|k: int| 0 <= k < d.len() implies #[trigger] d[k] != '/' && d[k] != '\\' && d[k]
        != '\0' by {
        if t.len() == 0 {
            assert(d == "multicliprelay"@);
        } else if t == "."@ || t == ".."@ {
            if k > 0 {
                assert(d[k] == t[k - 1]);
            }
        } else {
            assert(d[k] == t[k]);
        }
    }
    if !s.contains('/') && !s.contains('\\') && !s.contains('\0') {
        assert forall|k: int| 0 <= k < s.len() implies #[trigger] t[k] == s[k] by {
            assert(s.contains(s[k]));
            assert(t[k] == put(s[k]));
        }
        assert(t =~= s);
    }
    if t == "."@ || t == ".."@ {
        assert(d[0] == '_');
        assert("."@[0] == '.' && ".."@[0] == '.');
    }
    if t.len() == 0 {
        assert("multicliprelay"@.len() == 14);
        assert("."@.len() == 1 && ".."@.len() == 2);
    }
}

/// A received file is stored under its own name, made safe, in a directory of the received
/// files that is named after its digest.
pub proof fn law_where_a_file_is_stored(received: Seq<u8>, msg: MessageView)
    requires
        !is_tar(file_name(msg), msg.mime),
        crate::path::is_name(encode_utf8(first_eight(file_sha(msg)))),
        crate::path::is_name(encode_utf8(name_safe(file_name(msg)))),
    ensures
        crate::path::parts(file_job(received, msg).out_path) == crate::path::parts(received).push(
            crate::path::PartView::Name(encode_utf8(first_eight(file_sha(msg)))),
        ).push(crate::path::PartView::Name(encode_utf8(name_safe(file_name(msg))))),
        crate::path::parts(file_job(received, msg).out_dir) == crate::path::parts(received).push(
            crate::path::PartView::Name(encode_utf8(first_eight(file_sha(msg)))),
        ),
{
    let dir = in_dir(received, first_eight(file_sha(msg)));
    crate::path::law_name_lies_in_its_directory(
        received,
        encode_utf8(first_eight(file_sha(msg))),
    );
    crate::path::law_name_lies_in_its_directory(dir, encode_utf8(name_safe(file_name(msg))));
}

/// A received archive is unpacked in a directory of the received files that is named after its
/// digest and its own name; what it held goes into one directory of that name, unless the name
/// says nothing but that it is a bundle.
pub proof fn law_where_an_archive_is_unpacked(
    received: Seq<u8>,
    msg: MessageView,
    base: Seq<char>,
    now: u64,
)
    requires
        msg.name == Some(base + ".tar"@),
        !".tar"@.is_suffix_of(base),
        !".TAR"@.is_suffix_of(base),
    ensures
        ({
            let j = file_job(received, msg);
            &&& j.is_bundle
            &&& j.wrapper == directory_name(base)
            &&& j.generic <==> "multicliprelay-bundle-"@.is_prefix_of(base)
            &&& j.out_dir == crate::path::joined(
                received,
                encode_utf8(first_eight(j.sha) + "_"@ + stem(name_safe(base + ".tar"@))),
            )
        }),
{
    law_stem_of_a_bundle(base);
    reveal_strlit(".tar");
    crate::paths::law_which_payloads_are_archives(base, ".tar"@, msg.mime);
}

/// While files are put on the clipboard, changes of files and of text are held back, whatever
/// their digest.
pub proof fn law_what_the_guard_holds_back(key: Seq<char>)
    requires
        key == "application/x-multicliprelay-file"@ || key == "text/plain;charset=utf-8"@ || key
            == "text/plain"@,
    ensures
        exists|i: int|
            0 <= i < guard().len() && (#[trigger] guard()[i] matches ActionView::Suppress(k, d, t)
                && k == key && d == "*"@ && t > 0),
{
    let g = guard();
    assert(g[0] == ActionView::Suppress(FILE_SUPPRESS_KEY@, "*"@, GUARD_TTL_MS));
    assert(g[1] == ActionView::Suppress(TEXT_MIME@, "*"@, GUARD_TTL_MS));
    assert(g[2] == ActionView::Suppress("text/plain"@, "*"@, GUARD_TTL_MS));
}

/// An image that was put on the clipboard is remembered by its digest under the type in which
/// it is there; nothing is forgotten of types that are not on the clipboard now.
pub proof fn law_applied_image_is_remembered(
    applied: Map<Seq<char>, Seq<char>>,
    own: Seq<char>,
    mode: ImageMode,
    received: Seq<u8>,
    msg: MessageView,
    sha: Seq<char>,
    other: Seq<char>,
)
    requires
        msg.kind == Kind::Image,
        is_news(applied, own, msg),
        msg.sha256 == Some(sha),
    ensures
        ({
            let s = step(applied, own, mode, received, msg);
            let after = applied_after(applied, own, mode, msg);
            let items = s->Do_0[1]->Copy_0;
            &&& after.contains_key(items[0].mime)
            &&& after[items[0].mime] == sha
            &&& (forall|i: int| 0 <= i < items.len() ==> (#[trigger] items[i]).mime != other) && applied.contains_key(
                other,
            ) ==> after.contains_key(other) && after[other] == applied[other]
        }),
{
    let s = step(applied, own, mode, received, msg);
    let items = s->Do_0[1]->Copy_0;
    let marks = step_marks(mode, msg);
    assert(marks[0] == MarkView { key: items[0].mime, sha });
    reveal_with_fuel(remembered, 3);
    if marks.len() == 2 {
        assert(marks.drop_last() =~= seq![marks[0]]);
        assert(marks.drop_last().drop_last() =~= Seq::<MarkView>::empty());
        assert(items.len() == 2 && items[1].mime == marks[1].key);
    } else {
        assert(marks.drop_last() =~= Seq::<MarkView>::empty());
    }
}

/// What was put on the clipboard is told last, with its size.
pub proof fn law_what_is_told(
    applied: Map<Seq<char>, Seq<char>>,
    own: Seq<char>,
    mode: ImageMode,
    received: Seq<u8>,
    msg: MessageView,
    p: Seq<u8>,
)
    requires
        is_news(applied, own, msg),
        msg.payload == Some(p),
        msg.kind == Kind::Text || msg.kind == Kind::Image && mode == ImageMode::Passthrough,
    ensures
        ({
            let what = if msg.kind == Kind::Text {
                "text"@
            } else {
                match msg.mime {
                    Some(m) => m,
                    None => "image/png"@,
                }
            };
            step(applied, own, mode, received, msg) matches StepView::Do(a) && a.last()
                == ActionView::Say("applied "@ + what + " ("@ + decimal(p.len()) + " bytes)"@)
        }),
{
}

/// Every digest that is marked is held back for a while under its own key, in the order of the
/// marks, and nothing else is.
pub proof fn law_marked_digests_are_held_back(marks: Seq<MarkView>, i: int)
    requires
        0 <= i < marks.len(),
    ensures
        suppress_marks(marks).len() == marks.len(),
        suppress_marks(marks)[i] == ActionView::Suppress(marks[i].key, marks[i].sha, 2000),
{
}

/// Of the digests that are marked under a key the last is remembered; what is remembered under
/// other keys stays.
pub proof fn law_last_mark_is_remembered(
    applied: Map<Seq<char>, Seq<char>>,
    marks: Seq<MarkView>,
    key: Seq<char>,
    i: int,
)
    ensures
        0 <= i < marks.len() && marks[i].key == key && (forall|j: int|
            i < j < marks.len() ==> (#[trigger] marks[j]).key != key) ==> remembered(
            applied,
            marks,
        ).contains_key(key) && remembered(applied, marks)[key] == marks[i].sha,
        (forall|j: int| 0 <= j < marks.len() ==> (#[trigger] marks[j]).key != key) ==> (remembered(
            applied,
            marks,
        ).contains_key(key) <==> applied.contains_key(key)) && remembered(applied, marks)[key]
            == applied[key],
    decreases marks.len(),
{
    if marks.len() > 0 {
        let m = marks.drop_last();
        law_last_mark_is_remembered(applied, m, key, i);
        if marks.last().key != key {
            if 0 <= i < marks.len() && marks[i].key == key && (forall|j: int|
                i < j < marks.len() ==> (#[trigger] marks[j]).key != key) {
                assert(m[i] == marks[i]);
                assert forall|j: int| i < j < m.len() implies (#[trigger] m[j]).key != key by {
                    assert(m[j] == marks[j]);
                }
            }
            if forall|j: int| 0 <= j < marks.len() ==> (#[trigger] marks[j]).key != key {
                assert forall|j: int| 0 <= j < m.len() implies (#[trigger] m[j]).key != key by {
                    assert(m[j] == marks[j]);
                }
            }
        }
    }
}

/// The PNG that goes with an image of another type is held back and remembered under its own
/// digest, so that it is not sent back.
pub proof fn law_png_beside_an_image_is_held_back(
    applied: Map<Seq<char>, Seq<char>>,
    own: Seq<char>,
    received: Seq<u8>,
    msg: MessageView,
)
    requires
        msg.kind == Kind::Image,
        is_news(applied, own, msg),
        msg.mime is Some,
        msg.mime->0 != "image/png"@,
        as_png(msg.payload->0) is Some,
    ensures
        ({
            let s = step(applied, own, ImageMode::MultiMime, received, msg);
            let after = applied_after(applied, own, ImageMode::MultiMime, msg);
            let sha = sha256_text(as_png(msg.payload->0)->0);
            &&& s is Do
            &&& s->Do_0.contains(ActionView::Suppress("image/png"@, sha, 2000))
            &&& after.contains_key("image/png"@) && after["image/png"@] == sha
        }),
{
    let s = step(applied, own, ImageMode::MultiMime, received, msg);
    let o = image_offer(
        ImageMode::MultiMime,
        msg.mime->0,
        msg.payload->0,
        msg.sha256,
        as_png(msg.payload->0),
    );
    let n = o.marks.len() as int;
    let last = MarkView { key: "image/png"@, sha: sha256_text(as_png(msg.payload->0)->0) };
    assert(o.marks.last() == last);
    assert(suppress_marks(o.marks)[n - 1] == ActionView::Suppress(last.key, last.sha, 2000));
    assert(s->Do_0[n + 1] == suppress_marks(o.marks)[n - 1]);
    law_last_mark_is_remembered(applied, o.marks, "image/png"@, n - 1);
}

/// A message can always be taken unless it is a file whose digest is not in plain letters and
/// digits, or is shorter than eight of them.
pub proof fn law_which_messages_can_be_taken(
    applied: Map<Seq<char>, Seq<char>>,
    own: Seq<char>,
    msg: MessageView,
)
    ensures
        msg.kind != Kind::File ==> can_take(applied, own, msg),
        msg.sha256 is None ==> can_take(applied, own, msg),
        msg.sha256 is Some && vstd::utf8::is_ascii_chars(msg.sha256->0) && (msg.name is Some
            || msg.sha256->0.len() >= 8) ==> can_take(applied, own, msg),
        msg.device_id == own ==> can_take(applied, own, msg),
{
    if msg.sha256 is Some && vstd::utf8::is_ascii_chars(msg.sha256->0) {
        crate::paths::lemma_first_eight_ascii(msg.sha256->0);
        vstd::utf8::is_ascii_chars_encode_utf8(msg.sha256->0);
    }
}

} // verus!
