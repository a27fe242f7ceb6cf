//! Publishing step by step: what is asked of the system next, and what follows from the
//! answer.

use crate::apply::TEXT_MIME;
use crate::bytes::{lossy, to_vec};
use crate::codec::as_png;
use crate::consts::{
    APPLIED_MARKER_MIME, GNOME_COPIED_FILES_MIME, KDE_URI_LIST_MIME, URI_LIST_MIME,
};
use crate::files::{collect_clipboard_paths, local_paths, urls_of_lines};
use crate::hash::sha256_text;
use crate::image_mode::ImageMode;
use crate::text::{lines_of, same, starts_with};
use crate::watch::{
    file_list, is_file_list, is_marked, is_publishable, is_unique, new_image, new_text, offered,
    image_preference, outgoing, prepare, publishable, unique_paths, with_digest, Outgoing, OutgoingView,
    Poll, PollView,
};
use vstd::prelude::*;

verus! {

/// What is done next.
#[verifier::ext_equal]
pub enum StepView {
    Rest,
    Read(Seq<char>),
    WhichExist(Seq<Seq<u8>>),
    IsHeldBack(Seq<char>, Seq<char>),
    Send(OutgoingView),
    SendFiles(Seq<Seq<u8>>),
}

/// What is done next.
#[derive(Debug)]
pub enum Step {
    /// Nothing more.
    Rest,
    /// Read the clipboard's content in a type.
    Read(&'static str),
    /// Find out which of the paths exist.
    WhichExist(Vec<Vec<u8>>),
    /// Find out whether content of a type with a digest is held back.
    IsHeldBack(String, String),
    /// Send the content.
    Send(Outgoing),
    /// Send the files, and hold text back for a while.
    SendFiles(Vec<Vec<u8>>),
}

impl View for Step {
    type V = StepView;

    open spec fn view(&self) -> StepView {
        match *self {
            Step::Rest => StepView::Rest,
            Step::Read(m) => StepView::Read(m@),
            Step::WhichExist(ps) => StepView::WhichExist(ps.deep_view()),
            Step::IsHeldBack(m, sha) => StepView::IsHeldBack(m@, sha@),
            Step::Send(out) => StepView::Send(out@),
            Step::SendFiles(ps) => StepView::SendFiles(ps.deep_view()),
        }
    }
}

/// The local files that content names.
pub open spec fn named_files(bytes: Seq<u8>) -> Seq<Seq<u8>> {
    local_paths(urls_of_lines(lines_of(lossy(bytes))))
}

/// The paths that exist. A path of which nothing is said does not.
pub open spec fn existing(paths: Seq<Seq<u8>>, exist: Seq<bool>) -> Seq<Seq<u8>>
    decreases paths.len(),
{
    if paths.len() == 0 {
        Seq::empty()
    } else {
        let before = existing(paths.drop_last(), exist);
        let i = paths.len() - 1;
        if i < exist.len() && exist[i] {
            before.push(paths.last())
        } else {
            before
        }
    }
}

/// The paths that exist.
pub fn existing_of(paths: &Vec<Vec<u8>>, exist: &Vec<bool>) -> (res: Vec<Vec<u8>>)
    ensures
        res.deep_view() == existing(paths.deep_view(), exist@),
{
    let ghost all = paths.deep_view();
    let mut out: Vec<Vec<u8>> = Vec::new();
    let mut i: usize = 0;
    assert(out.deep_view() =~= existing(all.take(0), exist@));
    while i < paths.len()
        invariant
            i <= paths@.len(),
            all == paths.deep_view(),
            all.len() == paths@.len(),
            out.deep_view() == existing(all.take(i as int), exist@),
        decreases paths@.len() - i,
    {
        let ghost next = all.take(i + 1);
        assert(next.drop_last() =~= all.take(i as int));
        assert(paths@[i as int].deep_view() =~= paths@[i as int]@);
        if i < exist.len() && exist[i] {
            let v = to_vec(paths[i].as_slice());
            assert(v.deep_view() =~= v@);
            let ghost before = out.deep_view();
            out.push(v);
            assert(out.deep_view() =~= before.push(all[i as int]));
        }
        i += 1;
    }
    assert(all.take(i as int) =~= all);
    out
}

/// Where the publication of content stands.
#[verifier::ext_equal]
pub enum AtView {
    /// It was asked which of the files that the content names exist.
    Files(Seq<u8>),
    /// It was asked whether the content is held back.
    Held(OutgoingView),
    End,
}

/// Where the publication of content stands.
pub enum At {
    Files(Vec<u8>),
    Held(Outgoing),
    End,
}

/// The publication of content of a type.
pub struct Publication {
    mime: String,
    mode: ImageMode,
    at: At,
}

/// The publication of content of a type.
#[verifier::ext_equal]
pub struct PublicationView {
    pub mime: Seq<char>,
    pub mode: ImageMode,
    pub at: AtView,
}

impl View for Publication {
    type V = PublicationView;

    closed spec fn view(&self) -> PublicationView {
        PublicationView {
            mime: self.mime@,
            mode: self.mode,
            at: match self.at {
                At::Files(b) => AtView::Files(b@),
                At::Held(out) => AtView::Held(out@),
                At::End => AtView::End,
            },
        }
    }
}

/// What is done for content that is no list of files: it is sent where it can be made ready
/// and is not held back.
pub open spec fn content_step(
    mime: Seq<char>,
    mode: ImageMode,
    bytes: Seq<u8>,
    png: Option<Seq<u8>>,
) -> (AtView, StepView) {
    match outgoing(mime, mode, bytes, png) {
        Some(t) => (
            AtView::Held(with_digest(t.0, t.1)),
            StepView::IsHeldBack(t.0, sha256_text(t.1)),
        ),
        None => (AtView::End, StepView::Rest),
    }
}

/// How the publication of content starts. A list of files is sent as files, and so is text
/// that names files which exist.
pub open spec fn is_start(
    mime: Seq<char>,
    mode: ImageMode,
    bytes: Seq<u8>,
    at: AtView,
    step: StepView,
) -> bool {
    let found = named_files(bytes);
    if is_file_list(mime) {
        &&& at is End
        &&& if found.len() == 0 {
            step is Rest
        } else {
            step is SendFiles && is_unique(found, step->SendFiles_0)
        }
    } else if "text/plain"@.is_prefix_of(mime) && found.len() > 0 {
        at == AtView::Files(bytes) && step == StepView::WhichExist(found)
    } else {
        (at, step) == content_step(mime, mode, bytes, as_png(bytes))
    }
}

/// What follows once it is known which files exist.
pub open spec fn is_after_files(
    mime: Seq<char>,
    mode: ImageMode,
    bytes: Seq<u8>,
    exist: Seq<bool>,
    at: AtView,
    step: StepView,
) -> bool {
    let there = existing(named_files(bytes), exist);
    if there.len() > 0 {
        at is End && step is SendFiles && is_unique(there, step->SendFiles_0)
    } else {
        (at, step) == content_step(mime, mode, bytes, as_png(bytes))
    }
}

/// What follows once it is known whether the content is held back.
pub open spec fn after_asked(at: AtView, held: bool) -> StepView {
    match at {
        AtView::Held(out) => if held {
            StepView::Rest
        } else {
            StepView::Send(out)
        },
        _ => StepView::Rest,
    }
}

impl Publication {
    /// Content that is no list of files.
    fn content(mime: String, mode: ImageMode, bytes: Vec<u8>) -> (res: (Publication, Step))
        ensures
            res.0@.mime == mime@,
            res.0@.mode == mode,
            (res.0@.at, res.1@) == content_step(mime@, mode, bytes@, as_png(bytes@)),
    {
        match prepare(mime.as_str(), mode, bytes) {
            Some(out) => {
                let step = Step::IsHeldBack(out.mime.clone(), out.sha.clone());
                (Publication { mime, mode, at: At::Held(out) }, step)
            },
            None => (Publication { mime, mode, at: At::End }, Step::Rest),
        }
    }

    /// Starts to publish content of a type.
    pub fn start(mime: &str, mode: ImageMode, bytes: Vec<u8>) -> (res: (Publication, Step))
        ensures
            res.0@.mime == mime@,
            res.0@.mode == mode,
            is_start(mime@, mode, bytes@, res.0@.at, res.1@),
    {
        let owned = mime.to_string();
        if file_list(mime) {
            let found = collect_clipboard_paths(bytes.as_slice());
            let step = if found.len() == 0 {
                Step::Rest
            } else {
                Step::SendFiles(unique_paths(&found))
            };
            return (Publication { mime: owned, mode, at: At::End }, step);
        }
        if starts_with(mime, "text/plain") {
            let found = collect_clipboard_paths(bytes.as_slice());
            if found.len() > 0 {
                return (
                    Publication { mime: owned, mode, at: At::Files(bytes) },
                    Step::WhichExist(found),
                );
            }
        }
        Publication::content(owned, mode, bytes)
    }

    /// It is known which of the files exist.
    pub fn on_exist(self, exist: &Vec<bool>) -> (res: (Publication, Step))
        ensures
            res.0@.mime == self@.mime,
            res.0@.mode == self@.mode,
            match self@.at {
                AtView::Files(bytes) => is_after_files(
                    self@.mime,
                    self@.mode,
                    bytes,
                    exist@,
                    res.0@.at,
                    res.1@,
                ),
                _ => res.0@.at is End && res.1 is Rest,
            },
    {
        let Publication { mime, mode, at } = self;
        match at {
            At::Files(bytes) => {
                let found = collect_clipboard_paths(bytes.as_slice());
                let there = existing_of(&found, exist);
                if there.len() > 0 {
                    (Publication { mime, mode, at: At::End }, Step::SendFiles(unique_paths(&there)))
                } else {
                    Publication::content(mime, mode, bytes)
                }
            },
            _ => (Publication { mime, mode, at: At::End }, Step::Rest),
        }
    }

    /// It is known whether the content is held back.
    pub fn on_held_back(self, held: bool) -> (res: Step)
        ensures
            res@ == after_asked(self@.at, held),
            res@ == match self@.at {
                AtView::Held(out) => if held {
                    StepView::Rest
                } else {
                    StepView::Send(out)
                },
                _ => StepView::Rest,
            },
    {
        match self.at {
            At::Held(out) => if held {
                Step::Rest
            } else {
                Step::Send(out)
            },
            _ => Step::Rest,
        }
    }
}

/// The limits for content that is sent.
#[derive(Clone, Copy, Debug)]
pub struct Limits {
    pub max_text: usize,
    pub max_image: usize,
}

/// The types of lists of files, in the order in which they are read.
pub open spec fn list_type(i: nat) -> Seq<char> {
    if i == 0 {
        URI_LIST_MIME@
    } else if i == 1 {
        KDE_URI_LIST_MIME@
    } else {
        GNOME_COPIED_FILES_MIME@
    }
}

fn list_type_of(i: usize) -> (res: &'static str)
    ensures
        res@ == list_type(i as nat),
{
    if i == 0 {
        URI_LIST_MIME
    } else if i == 1 {
        KDE_URI_LIST_MIME
    } else {
        GNOME_COPIED_FILES_MIME
    }
}

/// The types of images, in the order in which they are read: that in which they are preferred.
pub open spec fn image_type(i: nat, mode: ImageMode) -> Seq<char> {
    image_preference(mode)[i as int]
}

fn image_type_of(i: usize, mode: ImageMode) -> (res: &'static str)
    requires
        i < 4,
    ensures
        res@ == image_type(i as nat, mode),
        "image/"@.is_prefix_of(res@),
{
    proof {
        reveal_strlit("image/");
        reveal_strlit("image/png");
        reveal_strlit("image/jpeg");
        reveal_strlit("image/webp");
        reveal_strlit("image/gif");
    }
    let all: [&'static str; 4] = if mode == ImageMode::MultiMime {
        ["image/jpeg", "image/webp", "image/gif", "image/png"]
    } else {
        ["image/png", "image/jpeg", "image/webp", "image/gif"]
    };
    all[i]
}

/// An image that is no PNG has been found by now: one was before, or what was read is one that
/// is within the limit.
pub open spec fn found_other(r: RoundView, i: nat, read: Option<Seq<u8>>, max: nat) -> bool {
    r.other_found || image_type(i, r.mode) != "image/png"@ && read is Some && 0 < read->0.len()
        <= max
}

/// Where a look at the clipboard stands.
#[verifier::ext_equal]
pub enum RoundAtView {
    /// The list of types was asked for.
    Types,
    /// A list of files was asked for.
    List(nat),
    /// The text was asked for.
    Text,
    /// It was asked which of the files that the text names exist.
    TextFiles(Seq<u8>),
    /// It was asked whether the text is held back.
    TextHeld(OutgoingView),
    /// The text with a digest is being sent.
    TextSent(Seq<char>),
    /// An image was asked for.
    Image(nat),
    /// It was asked whether an image is held back.
    ImageHeld(nat, OutgoingView),
    /// The image of a type with a digest is being sent.
    ImageSent(nat, Seq<char>, Seq<char>),
    End,
}

/// Where a look at the clipboard stands.
pub enum RoundAt {
    Types,
    List(usize),
    Text,
    TextFiles(Vec<u8>),
    TextHeld(Outgoing),
    TextSent(String),
    Image(usize),
    ImageHeld(usize, Outgoing),
    ImageSent(usize, String, String),
    End,
}

/// One look at the clipboard, when it is looked at again and again.
pub struct Round {
    at: RoundAt,
    mode: ImageMode,
    /// An image that is no PNG has been found.
    other_found: bool,
}

/// One look at the clipboard.
#[verifier::ext_equal]
pub struct RoundView {
    pub at: RoundAtView,
    pub mode: ImageMode,
    pub other_found: bool,
}

impl View for Round {
    type V = RoundView;

    closed spec fn view(&self) -> RoundView {
        RoundView {
            at: match self.at {
                RoundAt::Types => RoundAtView::Types,
                RoundAt::List(i) => RoundAtView::List(i as nat),
                RoundAt::Text => RoundAtView::Text,
                RoundAt::TextFiles(b) => RoundAtView::TextFiles(b@),
                RoundAt::TextHeld(out) => RoundAtView::TextHeld(out@),
                RoundAt::TextSent(sha) => RoundAtView::TextSent(sha@),
                RoundAt::Image(i) => RoundAtView::Image(i as nat),
                RoundAt::ImageHeld(i, out) => RoundAtView::ImageHeld(i as nat, out@),
                RoundAt::ImageSent(i, m, sha) => RoundAtView::ImageSent(i as nat, m@, sha@),
                RoundAt::End => RoundAtView::End,
            },
            mode: self.mode,
            other_found: self.other_found,
        }
    }
}

/// A round and what is done next.
pub type NextView = (RoundView, StepView);

/// The next image is read, or the round ends.
pub open spec fn image_from(i: nat, r: RoundView) -> NextView {
    if i < 4 {
        (RoundView { at: RoundAtView::Image(i), ..r }, StepView::Read(image_type(i, r.mode)))
    } else {
        over(r)
    }
}

/// The round ends.
pub open spec fn over(r: RoundView) -> NextView {
    (RoundView { at: RoundAtView::End, ..r }, StepView::Rest)
}

/// Text that names no files that exist is sent where it is new and not held back.
pub open spec fn text_content(p: PollView, l: Limits, bytes: Seq<u8>, r: RoundView) -> NextView {
    match new_text(p, bytes, l.max_text as nat) {
        Some(sha) => (
            RoundView { at: RoundAtView::TextHeld(with_digest(TEXT_MIME@, bytes)), ..r },
            StepView::IsHeldBack(TEXT_MIME@, sha),
        ),
        None => image_from(0, r),
    }
}

/// What follows on the list of types, if it can be had: content that came from the relay is
/// left alone, else lists of files are looked for.
pub open spec fn after_types(r: RoundView, types: Option<Seq<char>>) -> NextView {
    if r.at !is Types || (types is Some && offered(types->0, APPLIED_MARKER_MIME@)) {
        over(r)
    } else {
        (RoundView { at: RoundAtView::List(0), ..r }, StepView::Read(list_type(0)))
    }
}

/// What follows on the content of a type, if it can be had. The first list of files that is
/// not empty is all that a round sends. Without one it is text that is looked at, and then
/// the images.
pub open spec fn is_after_content(
    r: RoundView,
    p: PollView,
    l: Limits,
    read: Option<Seq<u8>>,
    next: NextView,
) -> bool {
    match r.at {
        RoundAtView::List(i) => if read is Some && read->0.len() > 0 {
            &&& next.0 == (RoundView { at: RoundAtView::End, ..r })
            &&& next.1 is SendFiles
            &&& is_unique(named_files(read->0), next.1->SendFiles_0)
        } else if i < 2 {
            next == (
                RoundView { at: RoundAtView::List(i + 1), ..r },
                StepView::Read(list_type(i + 1)),
            )
        } else {
            next == (RoundView { at: RoundAtView::Text, ..r }, StepView::Read(TEXT_MIME@))
        },
        RoundAtView::Text => if read is Some && is_publishable(
            TEXT_MIME@,
            read->0.len(),
            l.max_text as nat,
            l.max_image as nat,
        ) {
            let found = named_files(read->0);
            if found.len() > 0 {
                next == (
                    RoundView { at: RoundAtView::TextFiles(read->0), ..r },
                    StepView::WhichExist(found),
                )
            } else {
                next == text_content(p, l, read->0, r)
            }
        } else {
            next == image_from(0, r)
        },
        RoundAtView::Image(i) => {
            let after = RoundView {
                other_found: found_other(r, i, read, l.max_image as nat),
                ..r
            };
            next == match read {
                Some(b) => match new_image(
                    p,
                    image_type(i, r.mode),
                    b,
                    l.max_image as nat,
                    r.mode,
                    r.other_found,
                    as_png(b),
                ) {
                    Some(t) => (
                        RoundView { at: RoundAtView::ImageHeld(i, with_digest(t.0, t.1)), ..after },
                        StepView::IsHeldBack(t.0, sha256_text(t.1)),
                    ),
                    None => image_from(i + 1, after),
                },
                None => image_from(i + 1, after),
            }
        },
        _ => next == over(r),
    }
}

/// What follows once it is known which of the files that the text names exist.
pub open spec fn is_after_exist(
    r: RoundView,
    p: PollView,
    l: Limits,
    exist: Seq<bool>,
    next: NextView,
) -> bool {
    match r.at {
        RoundAtView::TextFiles(bytes) => {
            let there = existing(named_files(bytes), exist);
            if there.len() > 0 {
                &&& next.0 == (RoundView { at: RoundAtView::End, ..r })
                &&& next.1 is SendFiles
                &&& is_unique(there, next.1->SendFiles_0)
            } else {
                next == text_content(p, l, bytes, r)
            }
        },
        _ => next == over(r),
    }
}

/// What follows once it is known whether content is held back.
pub open spec fn after_held_back(r: RoundView, held: bool) -> NextView {
    match r.at {
        RoundAtView::TextHeld(out) => if held {
            image_from(0, r)
        } else {
            (RoundView { at: RoundAtView::TextSent(out.sha), ..r }, StepView::Send(out))
        },
        RoundAtView::ImageHeld(i, out) => if held {
            image_from(i + 1, r)
        } else {
            (RoundView { at: RoundAtView::ImageSent(i, out.mime, out.sha), ..r }, StepView::Send(out))
        },
        _ => over(r),
    }
}

/// What was sent is remembered.
pub open spec fn poll_after_sent(r: RoundView, p: PollView) -> PollView {
    match r.at {
        RoundAtView::TextSent(sha) => PollView { last_text: Some(sha), ..p },
        RoundAtView::ImageSent(i, mime, sha) => PollView {
            last_image: p.last_image.insert(mime, sha),
            ..p
        },
        _ => p,
    }
}

/// What follows once content has been sent.
pub open spec fn after_sent(r: RoundView) -> NextView {
    match r.at {
        RoundAtView::TextSent(sha) => image_from(0, r),
        RoundAtView::ImageSent(i, mime, sha) => image_from(i + 1, r),
        _ => over(r),
    }
}

impl Round {
    /// The position is one that a round can have.
    pub closed spec fn wf(&self) -> bool {
        match self.at {
            RoundAt::ImageHeld(i, _) => i < 4,
            RoundAt::List(i) => i < 3,
            RoundAt::Image(i) => i < 4,
            RoundAt::ImageSent(i, _, _) => i < 4,
            _ => true,
        }
    }

    /// A new look at the clipboard, with the mode for images. The list of types is asked for
    /// first.
    pub fn start(mode: ImageMode) -> (res: Round)
        ensures
            res.wf(),
            res@ == (RoundView { at: RoundAtView::Types, mode, other_found: false }),
    {
        Round { at: RoundAt::Types, mode, other_found: false }
    }

    fn over(mode: ImageMode, other_found: bool) -> (res: (Round, Step))
        ensures
            res.0.wf(),
            forall|at: RoundAtView|
                (res.0@, res.1@) == #[trigger] over(RoundView { at, mode, other_found }),
    {
        (Round { at: RoundAt::End, mode, other_found }, Step::Rest)
    }

    fn image_from(i: usize, mode: ImageMode, other_found: bool) -> (res: (Round, Step))
        ensures
            res.0.wf(),
            forall|at: RoundAtView|
                (res.0@, res.1@) == #[trigger] image_from(
                    i as nat,
                    RoundView { at, mode, other_found },
                ),
    {
        if i < 4 {
            (
                Round { at: RoundAt::Image(i), mode, other_found },
                Step::Read(image_type_of(i, mode)),
            )
        } else {
            Round::over(mode, other_found)
        }
    }

    fn text_content(
        poll: &Poll,
        l: Limits,
        bytes: Vec<u8>,
        mode: ImageMode,
        other_found: bool,
    ) -> (res: (Round, Step))
        ensures
            res.0.wf(),
            forall|at: RoundAtView|
                (res.0@, res.1@) == #[trigger] text_content(
                    poll@,
                    l,
                    bytes@,
                    RoundView { at, mode, other_found },
                ),
    {
        match poll.text(bytes.as_slice(), l.max_text) {
            Some(sha) => {
                let step = Step::IsHeldBack(TEXT_MIME.to_string(), sha.clone());
                let out = Outgoing { mime: TEXT_MIME.to_string(), bytes, sha };
                (Round { at: RoundAt::TextHeld(out), mode, other_found }, step)
            },
            None => Round::image_from(0, mode, other_found),
        }
    }

    /// The list of types is known, or cannot be had.
    pub fn on_types(self, types: Option<&str>) -> (res: (Round, Step))
        ensures
            res.0.wf(),
            (res.0@, res.1@) == after_types(self@, crate::apply::opt_str(types)),
    {
        match self.at {
            RoundAt::Types => {},
            _ => return Round::over(self.mode, self.other_found),
        }
        if let Some(t) = types {
            if is_marked(t) {
                return Round::over(self.mode, self.other_found);
            }
        }
        (
            Round { at: RoundAt::List(0), mode: self.mode, other_found: self.other_found },
            Step::Read(list_type_of(0)),
        )
    }

    /// The content of the type that was asked for is known, or cannot be had.
    pub fn on_content(self, poll: &Poll, l: Limits, read: Option<Vec<u8>>) -> (res: (Round, Step))
        requires
            self.wf(),
            poll.wf(),
        ensures
            res.0.wf(),
            is_after_content(
                self@,
                poll@,
                l,
                crate::wire::opt_payload(read),
                (res.0@, res.1@),
            ),
    {
        let Round { at, mode, other_found } = self;
        match at {
            RoundAt::List(i) => {
                if let Some(b) = read {
                    if b.len() > 0 {
                        let found = collect_clipboard_paths(b.as_slice());
                        return (
                            Round { at: RoundAt::End, mode, other_found },
                            Step::SendFiles(unique_paths(&found)),
                        );
                    }
                }
                if i < 2 {
                    (
                        Round { at: RoundAt::List(i + 1), mode, other_found },
                        Step::Read(list_type_of(i + 1)),
                    )
                } else {
                    (Round { at: RoundAt::Text, mode, other_found }, Step::Read(TEXT_MIME))
                }
            },
            RoundAt::Text => {
                if let Some(b) = read {
                    if publishable(TEXT_MIME, b.len(), l.max_text, l.max_image) {
                        let found = collect_clipboard_paths(b.as_slice());
                        if found.len() > 0 {
                            return (
                                Round { at: RoundAt::TextFiles(b), mode, other_found },
                                Step::WhichExist(found),
                            );
                        }
                        return Round::text_content(poll, l, b, mode, other_found);
                    }
                }
                Round::image_from(0, mode, other_found)
            },
            RoundAt::Image(i) => {
                let mime = image_type_of(i, mode);
                let found = match &read {
                    Some(b) => b.len() > 0 && b.len() <= l.max_image && !same(mime, "image/png"),
                    None => false,
                };
                let out = match read {
                    Some(b) => poll.image(mime, b, l.max_image, mode, other_found),
                    None => None,
                };
                let other_found = other_found || found;
                match out {
                    Some(out) => {
                        let step = Step::IsHeldBack(out.mime.clone(), out.sha.clone());
                        (Round { at: RoundAt::ImageHeld(i, out), mode, other_found }, step)
                    },
                    None => Round::image_from(i + 1, mode, other_found),
                }
            },
            _ => Round::over(mode, other_found),
        }
    }

    /// It is known which of the files that the text names exist.
    pub fn on_exist(self, poll: &Poll, l: Limits, exist: &Vec<bool>) -> (res: (Round, Step))
        ensures
            res.0.wf(),
            is_after_exist(self@, poll@, l, exist@, (res.0@, res.1@)),
    {
        let Round { at, mode, other_found } = self;
        match at {
            RoundAt::TextFiles(bytes) => {
                let found = collect_clipboard_paths(bytes.as_slice());
                let there = existing_of(&found, exist);
                if there.len() > 0 {
                    (
                        Round { at: RoundAt::End, mode, other_found },
                        Step::SendFiles(unique_paths(&there)),
                    )
                } else {
                    Round::text_content(poll, l, bytes, mode, other_found)
                }
            },
            _ => Round::over(mode, other_found),
        }
    }

    /// It is known whether the content is held back.
    pub fn on_held_back(self, held: bool) -> (res: (Round, Step))
        requires
            self.wf(),
        ensures
            res.0.wf(),
            (res.0@, res.1@) == after_held_back(self@, held),
    {
        let Round { at, mode, other_found } = self;
        match at {
            RoundAt::TextHeld(out) => if held {
                Round::image_from(0, mode, other_found)
            } else {
                let sha = out.sha.clone();
                (Round { at: RoundAt::TextSent(sha), mode, other_found }, Step::Send(out))
            },
            RoundAt::ImageHeld(i, out) => if held {
                Round::image_from(i + 1, mode, other_found)
            } else {
                let sha = out.sha.clone();
                let mime = out.mime.clone();
                (Round { at: RoundAt::ImageSent(i, mime, sha), mode, other_found }, Step::Send(out))
            },
            _ => Round::over(mode, other_found),
        }
    }

    /// The content has been sent.
    pub fn on_sent(self, poll: &mut Poll) -> (res: (Round, Step))
        requires
            self.wf(),
            old(poll).wf(),
        ensures
            res.0.wf(),
            final(poll).wf(),
            final(poll)@ == poll_after_sent(self@, old(poll)@),
            (res.0@, res.1@) == after_sent(self@),
    {
        let Round { at, mode, other_found } = self;
        match at {
            RoundAt::TextSent(sha) => {
                poll.text_sent(sha.as_str());
                Round::image_from(0, mode, other_found)
            },
            RoundAt::ImageSent(i, mime, sha) => {
                poll.image_sent(mime.as_str(), sha.as_str());
                Round::image_from(i + 1, mode, other_found)
            },
            _ => Round::over(mode, other_found),
        }
    }
}

/// The position of a round is one that it can have: content that waits carries its own digest.
pub open spec fn is_position(at: RoundAtView) -> bool {
    match at {
        RoundAtView::TextHeld(out) => out == with_digest(TEXT_MIME@, out.bytes),
        RoundAtView::List(i) => i < 3,
        RoundAtView::Image(i) => i < 4,
        RoundAtView::ImageHeld(i, out) => i < 4 && out == with_digest(out.mime, out.bytes),
        RoundAtView::ImageSent(i, _, _) => i < 4,
        _ => true,
    }
}

/// How many answers a round waits for at most.
pub open spec fn answers_left(at: RoundAtView) -> nat {
    match at {
        RoundAtView::Types => 20,
        RoundAtView::List(i) => (19 - i) as nat,
        RoundAtView::Text => 16,
        RoundAtView::TextFiles(_) => 15,
        RoundAtView::TextHeld(_) => 14,
        RoundAtView::TextSent(_) => 13,
        RoundAtView::Image(i) => (12 - 3 * i) as nat,
        RoundAtView::ImageHeld(i, _) => (11 - 3 * i) as nat,
        RoundAtView::ImageSent(i, _, _) => (10 - 3 * i) as nat,
        RoundAtView::End => 0,
    }
}

/// `next` follows on a round at `r`, whatever the answer is.
pub open spec fn follows(r: RoundView, p: PollView, l: Limits, next: NextView) -> bool {
    ||| exists|types: Option<Seq<char>>| next == #[trigger] after_types(r, types)
    ||| exists|read: Option<Seq<u8>>| #[trigger] is_after_content(r, p, l, read, next)
    ||| exists|exist: Seq<bool>| #[trigger] is_after_exist(r, p, l, exist, next)
    ||| exists|held: bool| next == #[trigger] after_held_back(r, held)
    ||| next == after_sent(r)
}

/// A round comes to an end: with each answer it waits for fewer, and it rests when it waits
/// for none.
pub proof fn law_round_ends(r: RoundView, p: PollView, l: Limits, next: NextView)
    requires
        is_position(r.at),
        follows(r, p, l, next),
    ensures
        is_position(next.0.at),
        r.at !is End ==> answers_left(next.0.at) < answers_left(r.at),
        r.at is End ==> next.0.at is End && next.1 is Rest,
{
}

/// Content that came from the relay is left alone.
pub proof fn law_marked_content_is_left_alone(r: RoundView, types: Seq<char>)
    requires
        offered(types, APPLIED_MARKER_MIME@),
    ensures
        after_types(r, Some(types)) == over(r),
{
}

/// A round that sends files sends nothing else after them.
pub proof fn law_files_end_a_round(r: RoundView, p: PollView, l: Limits, next: NextView)
    requires
        follows(r, p, l, next),
        next.1 is SendFiles,
    ensures
        next.0.at is End,
{
}

/// What is held back is not sent.
pub proof fn law_held_back_content_is_not_sent(r: RoundView)
    ensures
        after_held_back(r, true).1 !is Send,
{
}

/// Content is sent only in answer to the question whether it is held back.
pub proof fn law_content_is_asked_about_first(r: RoundView, p: PollView, l: Limits, next: NextView)
    requires
        follows(r, p, l, next),
        next.1 is Send,
    ensures
        next == after_held_back(r, false),
{
    if exists|held: bool| next == #[trigger] after_held_back(r, held) {
        let held = choose|held: bool| next == #[trigger] after_held_back(r, held);
        if held {
            law_held_back_content_is_not_sent(r);
        }
    }
}

/// Content that is sent carries its own digest.
pub proof fn law_sent_content_carries_its_digest(
    r: RoundView,
    p: PollView,
    l: Limits,
    next: NextView,
)
    requires
        is_position(r.at),
        follows(r, p, l, next),
    ensures
        next.1 matches StepView::Send(out) ==> out == with_digest(out.mime, out.bytes),
{
}

/// Text that a round has sent is not taken up by the rounds after it.
pub proof fn law_sent_text_is_passed_over(
    p: PollView,
    l: Limits,
    bytes: Seq<u8>,
    r: RoundView,
    later: RoundView,
)
    ensures
        ({
            let sent = after_held_back(
                RoundView { at: RoundAtView::TextHeld(with_digest(TEXT_MIME@, bytes)), ..r },
                false,
            ).0;
            text_content(poll_after_sent(sent, p), l, bytes, later) == image_from(0, later)
        }),
{
}

/// In the mode that offers several types, a PNG is not sent by a round that has found the image
/// in another format: it is not even asked about.
pub proof fn law_png_is_left_to_another_format(
    r: RoundView,
    p: PollView,
    l: Limits,
    read: Option<Seq<u8>>,
    next: NextView,
)
    requires
        r.mode == ImageMode::MultiMime,
        r.at matches RoundAtView::Image(i) && i < 4,
        is_after_content(r, p, l, read, next),
    ensures
        next.0.other_found == found_other(r, r.at->Image_0, read, l.max_image as nat),
        r.other_found ==> (next.1 matches StepView::IsHeldBack(m, _) ==> m != "image/png"@),
{
    reveal_strlit("image/png");
    reveal_strlit("image/jpeg");
    reveal_strlit("image/webp");
    reveal_strlit("image/gif");
    let i = r.at->Image_0;
    let t = image_type(i, r.mode);
    assert("image/png"@.len() != "image/jpeg"@.len());
    assert("image/png"@.len() != "image/webp"@.len());
    assert("image/png"@[6] != "image/gif"@[6]);
    if i < 3 {
        assert(t != "image/png"@);
    }
}

/// In the mode that offers several types, the PNG is looked at last; in the others, first.
pub proof fn law_png_is_looked_at_last_beside_others(mode: ImageMode)
    ensures
        image_type(if mode == ImageMode::MultiMime { 3 } else { 0 }, mode) == "image/png"@,
{
}

/// A list of files is never published as content.
pub proof fn law_lists_are_published_as_files(
    mime: Seq<char>,
    mode: ImageMode,
    bytes: Seq<u8>,
    at: AtView,
    step: StepView,
)
    requires
        is_file_list(mime),
        is_start(mime, mode, bytes, at, step),
    ensures
        at is End,
        step is Rest || step is SendFiles,
{
}

/// New text is sent: where the clipboard holds no marker of the relay and no list of files,
/// and the text names no files, is within the limit, was not sent last and is not held back,
/// it goes out as it is, with its digest, and is remembered as sent.
pub proof fn law_new_text_is_sent(
    p: PollView,
    l: Limits,
    mode: ImageMode,
    types: Seq<char>,
    text: Seq<u8>,
    a: NextView,
    b: NextView,
    c: NextView,
    d: NextView,
)
    requires
        !offered(types, "application/x-multicliprelay-applied"@),
        0 < text.len() <= l.max_text,
        named_files(text).len() == 0,
        p.last_text != Some(sha256_text(text)),
        is_after_content(
            after_types(
                RoundView { at: RoundAtView::Types, mode, other_found: false },
                Some(types),
            ).0,
            p,
            l,
            None,
            a,
        ),
        is_after_content(a.0, p, l, None, b),
        is_after_content(b.0, p, l, None, c),
        is_after_content(c.0, p, l, Some(text), d),
    ensures
        ({
            let start = after_types(
                RoundView { at: RoundAtView::Types, mode, other_found: false },
                Some(types),
            );
            let sent = after_held_back(d.0, false);
            &&& start.1 == StepView::Read("text/uri-list"@)
            &&& a.1 == StepView::Read("application/x-kde4-urilist"@)
            &&& b.1 == StepView::Read("x-special/gnome-copied-files"@)
            &&& c.1 == StepView::Read("text/plain;charset=utf-8"@)
            &&& d.1 == StepView::IsHeldBack("text/plain;charset=utf-8"@, sha256_text(text))
            &&& sent.1 == StepView::Send(
                OutgoingView {
                    mime: "text/plain;charset=utf-8"@,
                    bytes: text,
                    sha: sha256_text(text),
                },
            )
            &&& poll_after_sent(sent.0, p).last_text == Some(sha256_text(text))
            &&& poll_after_sent(sent.0, p).last_image == p.last_image
        }),
{
    crate::watch::law_what_is_within_the_limits(
        "text/plain;charset=utf-8"@,
        text.len(),
        l.max_text as nat,
        l.max_image as nat,
    );
    reveal_strlit("text/");
    reveal_strlit("text/plain;charset=utf-8");
    assert("text/"@ =~= "text/plain;charset=utf-8"@.take(5));
}

/// The four types of images are looked at in every round that sends no files, one after the
/// other, whether the text and the images before were sent, held back or not there at all.
pub proof fn law_every_image_type_is_looked_at(
    r: RoundView,
    p: PollView,
    l: Limits,
    mime: Seq<char>,
    next: NextView,
    i: nat,
    held: bool,
    out: OutgoingView,
    sha: Seq<char>,
)
    requires
        mime == "image/png"@ || mime == "image/jpeg"@ || mime == "image/webp"@ || mime
            == "image/gif"@,
        i < 4,
    ensures
        exists|k: nat| k < 4 && #[trigger] image_type(k, r.mode) == mime,
        r.at is Text && is_after_content(r, p, l, None, next) ==> next.0.at == RoundAtView::Image(0)
            && next.1 == StepView::Read(image_type(0, r.mode)),
        r.at is TextSent ==> after_sent(r).1 == StepView::Read(image_type(0, r.mode)),
        r.at is TextHeld ==> after_held_back(r, true).1 == StepView::Read(image_type(0, r.mode)),
        i < 3 && r.at == RoundAtView::Image(i) && is_after_content(r, p, l, None, next) ==> next.0.at
            == RoundAtView::Image(i + 1) && next.1 == StepView::Read(image_type(i + 1, r.mode)),
        i < 3 && r.at == RoundAtView::ImageHeld(i, out) ==> after_held_back(r, true).1
            == StepView::Read(image_type(i + 1, r.mode)),
        i < 3 && r.at == RoundAtView::ImageSent(i, mime, sha) ==> after_sent(r).1 == StepView::Read(
            image_type(i + 1, r.mode),
        ),
{
    assert(image_type(0, r.mode) == image_preference(r.mode)[0]);
    assert(image_type(1, r.mode) == image_preference(r.mode)[1]);
    assert(image_type(2, r.mode) == image_preference(r.mode)[2]);
    assert(image_type(3, r.mode) == image_preference(r.mode)[3]);
}

/// A new image is sent: within the limit, not the last sent under its type, not a PNG beside
/// another format where several are offered, and not held back, it goes out as it is, with its
/// digest, and is remembered as sent under its type.
pub proof fn law_new_image_is_sent(
    r: RoundView,
    p: PollView,
    l: Limits,
    i: nat,
    bytes: Seq<u8>,
    next: NextView,
)
    requires
        i < 4,
        r.at == RoundAtView::Image(i),
        r.mode != ImageMode::ForcePng,
        !(r.mode == ImageMode::MultiMime && r.other_found && image_type(i, r.mode)
            == "image/png"@),
        0 < bytes.len() <= l.max_image,
        !(p.last_image.contains_key(image_type(i, r.mode)) && p.last_image[image_type(i, r.mode)]
            == sha256_text(bytes)),
        is_after_content(r, p, l, Some(bytes), next),
    ensures
        ({
            let mime = image_type(i, r.mode);
            let sent = after_held_back(next.0, false);
            &&& next.1 == StepView::IsHeldBack(mime, sha256_text(bytes))
            &&& sent.1 == StepView::Send(OutgoingView { mime, bytes, sha: sha256_text(bytes) })
            &&& poll_after_sent(sent.0, p).last_image == p.last_image.insert(
                mime,
                sha256_text(bytes),
            )
            &&& poll_after_sent(sent.0, p).last_text == p.last_text
        }),
{
}

/// Of the paths, those that exist are kept, in order, and no others.
pub proof fn law_existing_paths_are_kept(paths: Seq<Seq<u8>>, exist: Seq<bool>, i: int)
    requires
        paths.len() == exist.len(),
        0 <= i < paths.len(),
    ensures
        exist[i] ==> existing(paths, exist).contains(paths[i]),
        forall|k: int|
            0 <= k < existing(paths, exist).len() ==> exists|j: int|
                0 <= j < paths.len() && exist[j] && #[trigger] paths[j] == #[trigger] existing(
                    paths,
                    exist,
                )[k],
        (forall|j: int| 0 <= j < exist.len() ==> #[trigger] exist[j]) ==> existing(paths, exist)
            == paths,
{
    lemma_existing(paths, exist, i);
}

proof fn lemma_existing(paths: Seq<Seq<u8>>, exist: Seq<bool>, i: int)
    requires
        paths.len() <= exist.len(),
    ensures
        0 <= i < paths.len() && exist[i] ==> existing(paths, exist).contains(paths[i]),
        forall|k: int|
            0 <= k < existing(paths, exist).len() ==> exists|j: int|
                0 <= j < paths.len() && exist[j] && #[trigger] paths[j] == #[trigger] existing(
                    paths,
                    exist,
                )[k],
        (forall|j: int| 0 <= j < exist.len() ==> #[trigger] exist[j]) ==> existing(paths, exist)
            == paths,
    decreases paths.len(),
{
    if paths.len() == 0 {
        assert(existing(paths, exist) =~= paths);
    } else {
        let init = paths.drop_last();
        let before = existing(init, exist);
        let all = existing(paths, exist);
        let n = paths.len() - 1;
        lemma_existing(init, exist, i);
        if 0 <= i < n && exist[i] {
            assert(init[i] == paths[i]);
            let k = choose|k: int| 0 <= k < before.len() && before[k] == paths[i];
            assert(all[k] == paths[i]);
        }
        if i == n && exist[i] {
            assert(all[before.len() as int] == paths[i]);
        }
        assert forall|k: int| 0 <= k < all.len() implies exists|j: int|
            0 <= j < paths.len() && exist[j] && #[trigger] paths[j] == #[trigger] all[k] by {
            if k < before.len() {
                assert(all[k] == before[k]);
                let j = choose|j: int|
                    0 <= j < init.len() && exist[j] && #[trigger] init[j] == before[k];
                assert(paths[j] == all[k]);
            } else {
                assert(exist[n] && paths[n] == all[k]);
            }
        }
        if forall|j: int| 0 <= j < exist.len() ==> #[trigger] exist[j] {
            assert(exist[n]);
            assert(all =~= paths);
        }
    }
}

/// Content that is no list of files and names none is published as it is: it is asked whether
/// it is held back, by its type and digest, and is what is then sent.
pub proof fn law_content_is_published(
    mime: Seq<char>,
    mode: ImageMode,
    bytes: Seq<u8>,
    at: AtView,
    step: StepView,
)
    requires
        is_start(mime, mode, bytes, at, step),
        mime != "text/uri-list"@,
        mime != "application/x-kde4-urilist"@,
        mime != "x-special/gnome-copied-files"@,
        !"text/plain"@.is_prefix_of(mime) || named_files(bytes).len() == 0,
        mode != ImageMode::ForcePng || !"image/"@.is_prefix_of(mime),
    ensures
        step == StepView::IsHeldBack(mime, sha256_text(bytes)),
        at == AtView::Held(OutgoingView { mime, bytes, sha: sha256_text(bytes) }),
{
}

/// A list of files is published as the files that it names, and so is plain text that names
/// files that exist; where none of them does, the text is published as it is.
pub proof fn law_named_files_are_published(
    mime: Seq<char>,
    mode: ImageMode,
    bytes: Seq<u8>,
    at: AtView,
    step: StepView,
    exist: Seq<bool>,
    i: int,
)
    requires
        0 <= i < named_files(bytes).len() == exist.len(),
    ensures
        (mime == "text/uri-list"@ || mime == "application/x-kde4-urilist"@ || mime
            == "x-special/gnome-copied-files"@) && is_start(mime, mode, bytes, at, step) ==> (
        step matches StepView::SendFiles(fs) && exists|k: int|
            0 <= k < fs.len() && crate::path::parts(#[trigger] fs[k]) == crate::path::parts(
                named_files(bytes)[i],
            )),
        exist[i] && is_after_files(mime, mode, bytes, exist, at, step) ==> (
        step matches StepView::SendFiles(fs) && exists|k: int|
            0 <= k < fs.len() && crate::path::parts(#[trigger] fs[k]) == crate::path::parts(
                named_files(bytes)[i],
            )),
        (forall|j: int| 0 <= j < exist.len() ==> !#[trigger] exist[j]) && is_after_files(
            mime,
            ImageMode::Passthrough,
            bytes,
            exist,
            at,
            step,
        ) ==> step == StepView::IsHeldBack(mime, sha256_text(bytes)),
{
    let found = named_files(bytes);
    let there = existing(found, exist);
    law_existing_paths_are_kept(found, exist, i);
    if is_file_list(mime) && is_start(mime, mode, bytes, at, step) {
        lemma_sent_file(found, step->SendFiles_0, found[i]);
    }
    if exist[i] && is_after_files(mime, mode, bytes, exist, at, step) {
        assert(there.len() > 0);
        lemma_sent_file(there, step->SendFiles_0, found[i]);
    }
    if forall|j: int| 0 <= j < exist.len() ==> !#[trigger] exist[j] {
        if there.len() > 0 {
            let j = choose|j: int| 0 <= j < found.len() && exist[j] && #[trigger] found[j] == there[0];
            assert(!exist[j]);
        }
    }
}

proof fn lemma_sent_file(paths: Seq<Seq<u8>>, fs: Seq<Seq<u8>>, f: Seq<u8>)
    requires
        is_unique(paths, fs),
        paths.contains(f),
    ensures
        exists|k: int| 0 <= k < fs.len() && crate::path::parts(#[trigger] fs[k]) == crate::path::parts(f),
{
    let i = choose|i: int| 0 <= i < paths.len() && paths[i] == f;
    let keys = crate::bundle::all_parts(fs);
    assert(keys.contains(crate::path::parts(paths[i])));
    let k = choose|k: int| 0 <= k < keys.len() && keys[k] == crate::path::parts(f);
    assert(crate::path::parts(fs[k]) == crate::path::parts(f));
}

/// Content that was asked about and is not held back is sent, just as it was asked about; what
/// is held back is not.
pub proof fn law_content_not_held_back_is_sent(out: OutgoingView, at: AtView)
    ensures
        after_asked(AtView::Held(out), false) == StepView::Send(out),
        after_asked(at, true) is Rest,
        at !is Held ==> after_asked(at, false) is Rest,
{
}

/// A file whose address is on one of the lines of content is among the files that the content
/// names.
pub proof fn law_files_on_lines_are_named(bytes: Seq<u8>, ls: Seq<Seq<char>>, i: int, file: Seq<u8>)
    requires
        lossy(bytes) == crate::text::ended_lines(ls),
        forall|k: int|
            0 <= k < ls.len() ==> !(#[trigger] ls[k]).contains('\n') && (ls[k].len() > 0 ==> ls[k].last()
                != '\r'),
        0 <= i < ls.len(),
        crate::files::is_entry(crate::text::trimmed(ls[i])),
        crate::files::read_url(crate::text::trimmed(ls[i])) matches Some(u) && u.scheme == "file"@
            && u.file_path == Some(file),
    ensures
        named_files(bytes).contains(file),
{
    crate::text::law_lines_are_read_back(ls, Seq::empty());
    let a = ls.take(i);
    let b = ls.skip(i + 1);
    assert(ls =~= a + seq![ls[i]] + b);
    let u = crate::files::read_url(crate::text::trimmed(ls[i]))->0;
    crate::files::law_each_line_gives_its_address(a, seq![ls[i]], ls[i]);
    crate::files::law_each_line_gives_its_address(a + seq![ls[i]], b, ls[i]);
    crate::files::law_local_files_of_addresses(urls_of_lines(a), seq![u], u);
    crate::files::law_local_files_of_addresses(
        urls_of_lines(a + seq![ls[i]]),
        urls_of_lines(b),
        u,
    );
    let n = local_paths(urls_of_lines(a)).len() as int;
    assert(named_files(bytes)[n] == file);
}

/// Text that names files none of which exists is sent as text, where it is new and not held
/// back.
pub proof fn law_text_without_files_is_sent(
    r: RoundView,
    p: PollView,
    l: Limits,
    text: Seq<u8>,
    exist: Seq<bool>,
    next: NextView,
)
    requires
        r.at == RoundAtView::TextFiles(text),
        exist.len() == named_files(text).len(),
        forall|j: int| 0 <= j < exist.len() ==> !#[trigger] exist[j],
        0 < text.len() <= l.max_text,
        p.last_text != Some(sha256_text(text)),
        is_after_exist(r, p, l, exist, next),
    ensures
        next.1 == StepView::IsHeldBack("text/plain;charset=utf-8"@, sha256_text(text)),
        after_held_back(next.0, false).1 == StepView::Send(
            OutgoingView { mime: "text/plain;charset=utf-8"@, bytes: text, sha: sha256_text(text) },
        ),
{
    let found = named_files(text);
    let there = existing(found, exist);
    if there.len() > 0 {
        lemma_existing(found, exist, 0);
        let j = choose|j: int| 0 <= j < found.len() && exist[j] && #[trigger] found[j] == there[0];
        assert(!exist[j]);
    }
}

/// Files that a text names and that exist are sent, in place of the text.
pub proof fn law_existing_files_are_sent(
    r: RoundView,
    p: PollView,
    l: Limits,
    text: Seq<u8>,
    exist: Seq<bool>,
    next: NextView,
    i: int,
)
    requires
        r.at == RoundAtView::TextFiles(text),
        exist.len() == named_files(text).len(),
        0 <= i < exist.len(),
        exist[i],
        is_after_exist(r, p, l, exist, next),
    ensures
        next.1 matches StepView::SendFiles(fs) && exists|k: int|
            0 <= k < fs.len() && crate::path::parts(#[trigger] fs[k]) == crate::path::parts(
                named_files(text)[i],
            ),
{
    let found = named_files(text);
    law_existing_paths_are_kept(found, exist, i);
    assert(existing(found, exist).len() > 0);
    lemma_sent_file(existing(found, exist), next.1->SendFiles_0, found[i]);
}

/// A list of files on the clipboard is sent as the files that it names, in place of everything
/// else; the types of lists are read one after the other until one holds something.
pub proof fn law_list_of_files_is_sent(
    r: RoundView,
    p: PollView,
    l: Limits,
    k: nat,
    list: Seq<u8>,
    next: NextView,
    i: int,
)
    requires
        k < 3,
        r.at == RoundAtView::List(k),
        list.len() > 0,
        is_after_content(r, p, l, Some(list), next),
        0 <= i < named_files(list).len(),
    ensures
        next.1 matches StepView::SendFiles(fs) && exists|k: int|
            0 <= k < fs.len() && crate::path::parts(#[trigger] fs[k]) == crate::path::parts(
                named_files(list)[i],
            ),
{
    lemma_sent_file(named_files(list), next.1->SendFiles_0, named_files(list)[i]);
}

/// Under the mode that asks for PNG, the PNG of an image is published, under its own digest; an
/// image of which none can be made is not.
pub proof fn law_image_is_published_as_png(
    mime: Seq<char>,
    bytes: Seq<u8>,
    at: AtView,
    step: StepView,
)
    requires
        is_start(mime, ImageMode::ForcePng, bytes, at, step),
        "image/"@.is_prefix_of(mime),
    ensures
        match as_png(bytes) {
            Some(p) => step == StepView::IsHeldBack("image/png"@, sha256_text(p)) && at
                == AtView::Held(OutgoingView { mime: "image/png"@, bytes: p, sha: sha256_text(p) }),
            None => step is Rest && at is End,
        },
{
    reveal_strlit("image/");
    reveal_strlit("text/plain");
    reveal_strlit("text/uri-list");
    reveal_strlit("application/x-kde4-urilist");
    reveal_strlit("x-special/gnome-copied-files");
    assert(mime[0] == 'i') by {
        assert(mime.take(6)[0] == "image/"@[0]);
    }
    assert("text/uri-list"@[0] == 't');
    assert("application/x-kde4-urilist"@[0] == 'a');
    assert("x-special/gnome-copied-files"@[0] == 'x');
    if "text/plain"@.is_prefix_of(mime) {
        assert(mime.take(10)[0] == "text/plain"@[0]);
    }
}

/// Under the mode that asks for PNG, a round sends the PNG of a new image that it finds.
pub proof fn law_new_image_is_sent_as_png(
    r: RoundView,
    p: PollView,
    l: Limits,
    i: nat,
    bytes: Seq<u8>,
    png: Seq<u8>,
    next: NextView,
)
    requires
        i < 4,
        r.at == RoundAtView::Image(i),
        r.mode == ImageMode::ForcePng,
        0 < bytes.len() <= l.max_image,
        as_png(bytes) == Some(png),
        !(p.last_image.contains_key("image/png"@) && p.last_image["image/png"@] == sha256_text(
            png,
        )),
        is_after_content(r, p, l, Some(bytes), next),
    ensures
        next.1 == StepView::IsHeldBack("image/png"@, sha256_text(png)),
        after_held_back(next.0, false).1 == StepView::Send(
            OutgoingView { mime: "image/png"@, bytes: png, sha: sha256_text(png) },
        ),
{
    reveal_strlit("image/");
    reveal_strlit("image/png");
    reveal_strlit("image/jpeg");
    reveal_strlit("image/webp");
    reveal_strlit("image/gif");
    let t = image_type(i, r.mode);
    assert(t == "image/png"@ || t == "image/jpeg"@ || t == "image/webp"@ || t == "image/gif"@);
    assert("image/"@ =~= t.take(6));
}

} // verus!
