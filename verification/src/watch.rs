//! Publishing the clipboard: which type of its content is sent, and whether.

use crate::apply::{opt_str, TEXT_MIME};
use crate::codec::{as_png, to_png};
use crate::consts::{
    APPLIED_MARKER_MIME, GNOME_COPIED_FILES_MIME, KDE_URI_LIST_MIME, URI_LIST_MIME,
    X11_SYNC_MARKER_MIME,
};
use crate::frame::{sender_name, sender_name_of};
use crate::hash::{sha256_hex, sha256_text};
use crate::image_mode::ImageMode;
use crate::message::{image_view, is_random_id, text_view, Message, MessageView};
use crate::number::{number, parse};
use crate::order::{increasing, strict_total};
use crate::path::{comes_before, lemma_path_order, parts, parts_of, path_less, same_parts, PartView};
use crate::text::{any_line, has_line, same, starts_with};
use crate::textmap::TextMap;
use vstd::prelude::*;

verus! {

/// A limit that the environment sets: a number, else the default.
pub open spec fn limit(set: Option<Seq<char>>, default: usize) -> usize {
    match set {
        Some(s) => match number(s, usize::MAX as nat) {
            Some(n) => n as usize,
            None => default,
        },
        None => default,
    }
}

/// A limit that the environment sets.
pub fn limit_of(set: Option<&str>, default: usize) -> (res: usize)
    ensures
        res == limit(opt_str(set), default),
{
    match set {
        Some(s) => match parse(s, usize::MAX as u64) {
            Some(n) => n as usize,
            None => default,
        },
        None => default,
    }
}

/// A limit that is handed on in decimal is read back.
pub proof fn law_limit_survives(n: usize, default: usize)
    ensures
        limit(Some(crate::number::decimal(n as nat)), default) == n,
{
    crate::number::law_print_then_parse(n as nat, usize::MAX as nat);
}

/// The type is on offer. `types` lists what is, one on a line.
pub open spec fn offered(types: Seq<char>, mime: Seq<char>) -> bool {
    has_line(types, mime)
}

/// The first of the types that is on offer.
pub open spec fn first_offered(types: Seq<char>, mimes: Seq<Seq<char>>) -> Option<Seq<char>>
    decreases mimes.len(),
{
    if mimes.len() == 0 {
        None
    } else if offered(types, mimes[0]) {
        Some(mimes[0])
    } else {
        first_offered(types, mimes.drop_first())
    }
}

/// The image types in the order in which they are preferred: PNG first, unless a PNG
/// can be offered beside the original format.
pub open spec fn image_preference(mode: ImageMode) -> Seq<Seq<char>> {
    if mode == ImageMode::MultiMime {
        seq!["image/jpeg"@, "image/webp"@, "image/gif"@, "image/png"@]
    } else {
        seq!["image/png"@, "image/jpeg"@, "image/webp"@, "image/gif"@]
    }
}

/// All types that are published, in the order in which they are preferred: lists of
/// files, images, plain text.
pub open spec fn preference(mode: ImageMode) -> Seq<Seq<char>> {
    seq![URI_LIST_MIME@, KDE_URI_LIST_MIME@, GNOME_COPIED_FILES_MIME@] + image_preference(mode)
        + seq![TEXT_MIME@, "text/plain"@]
}

/// The type that is published: the one preferred among those on offer.
pub open spec fn best_mime(types: Seq<char>, mode: ImageMode) -> Option<Seq<char>> {
    first_offered(types, preference(mode))
}

/// The types in the order in which they are preferred.
fn preference_list(mode: ImageMode) -> (res: Vec<&'static str>)
    ensures
        res@.len() == preference(mode).len(),
        forall|i: int| 0 <= i < res@.len() ==> (#[trigger] res@[i])@ == preference(mode)[i],
{
    let mut out: Vec<&'static str> = Vec::new();
    out.push(URI_LIST_MIME);
    out.push(KDE_URI_LIST_MIME);
    out.push(GNOME_COPIED_FILES_MIME);
    if mode == ImageMode::MultiMime {
        out.push("image/jpeg");
        out.push("image/webp");
        out.push("image/gif");
        out.push("image/png");
    } else {
        out.push("image/png");
        out.push("image/jpeg");
        out.push("image/webp");
        out.push("image/gif");
    }
    out.push(TEXT_MIME);
    out.push("text/plain");
    out
}

/// The type that is published.
pub fn choose_mime(types: &str, mode: ImageMode) -> (res: Option<&'static str>)
    ensures
        match res {
            Some(m) => best_mime(types@, mode) == Some(m@),
            None => best_mime(types@, mode) is None,
        },
{
    let all = preference_list(mode);
    let ghost ms = preference(mode);
    let mut i: usize = 0;
    assert(ms.skip(0) =~= ms);
    while i < all.len()
        invariant
            i <= all@.len(),
            ms == preference(mode),
            all@.len() == ms.len(),
            forall|j: int| 0 <= j < all@.len() ==> (#[trigger] all@[j])@ == ms[j],
            first_offered(types@, ms) == first_offered(types@, ms.skip(i as int)),
        decreases all@.len() - i,
    {
        if any_line(types, all[i]) {
            return Some(all[i]);
        }
        assert(ms.skip(i as int).drop_first() =~= ms.skip(i + 1));
        i += 1;
    }
    None
}

/// The type that a hook publishes, for one type that changed: that type, where it is
/// the preferred one and the content did not come from the relay.
pub open spec fn hook_mime(types: Seq<char>, mode: ImageMode, candidate: Seq<char>) -> Option<
    Seq<char>,
> {
    if offered(types, APPLIED_MARKER_MIME@) {
        None
    } else if best_mime(types, mode) == Some(candidate) {
        Some(candidate)
    } else {
        None
    }
}

/// Why a hook publishes nothing, or what it does.
pub enum HookChoice {
    /// The content came from the relay.
    Marked,
    /// Nothing that is published is on offer.
    NothingOffered,
    /// Another type is preferred.
    OtherPreferred(&'static str),
    /// The type is published.
    Publish(&'static str),
}

/// What a hook does for the type `candidate` that changed.
pub fn hook_choice(types: &str, mode: ImageMode, candidate: &str) -> (res: HookChoice)
    ensures
        match res {
            HookChoice::Marked => offered(types@, APPLIED_MARKER_MIME@),
            HookChoice::NothingOffered => !offered(types@, APPLIED_MARKER_MIME@) && best_mime(
                types@,
                mode,
            ) is None,
            HookChoice::OtherPreferred(m) => !offered(types@, APPLIED_MARKER_MIME@) && best_mime(
                types@,
                mode,
            ) == Some(m@) && m@ != candidate@,
            HookChoice::Publish(m) => m@ == candidate@ && hook_mime(types@, mode, candidate@)
                == Some(candidate@),
        },
{
    if any_line(types, APPLIED_MARKER_MIME) {
        return HookChoice::Marked;
    }
    match choose_mime(types, mode) {
        None => HookChoice::NothingOffered,
        Some(m) => if same(candidate, m) {
            HookChoice::Publish(m)
        } else {
            HookChoice::OtherPreferred(m)
        },
    }
}

/// However many types change at once, at most one of their hooks publishes.
pub proof fn law_one_hook_publishes(
    types: Seq<char>,
    mode: ImageMode,
    a: Seq<char>,
    b: Seq<char>,
)
    requires
        hook_mime(types, mode, a) is Some,
        hook_mime(types, mode, b) is Some,
    ensures
        a == b,
{
}

/// Content that came from the relay is never published, neither by a hook nor by the command
/// that publishes the preferred type.
pub proof fn law_marked_content_is_not_published(
    types: Seq<char>,
    mode: ImageMode,
    candidate: Seq<char>,
)
    requires
        offered(types, APPLIED_MARKER_MIME@),
    ensures
        hook_mime(types, mode, candidate) is None,
        publish_mime("auto"@, Some(types), mode, Some(candidate)) is None,
        publish_mime("auto"@, Some(types), mode, None) is None,
{
}

/// The marker by which the sync between X11 and Wayland knows its own content is never
/// published, whatever the clipboard offers.
pub proof fn law_x11_marker_is_not_published(
    types: Seq<char>,
    mode: ImageMode,
    candidate: Seq<char>,
)
    ensures
        best_mime(types, mode) != Some(X11_SYNC_MARKER_MIME@),
        hook_mime(types, mode, candidate) != Some(X11_SYNC_MARKER_MIME@),
        publish_mime("auto"@, Some(types), mode, Some(candidate)) != Some(X11_SYNC_MARKER_MIME@),
        publish_mime("auto"@, Some(types), mode, None) != Some(X11_SYNC_MARKER_MIME@),
{
    let all = preference(mode);
    reveal_strlit("application/x-multicliprelay-x11-sync");
    reveal_strlit("text/uri-list");
    reveal_strlit("application/x-kde4-urilist");
    reveal_strlit("x-special/gnome-copied-files");
    reveal_strlit("image/png");
    reveal_strlit("image/jpeg");
    reveal_strlit("image/webp");
    reveal_strlit("image/gif");
    reveal_strlit("text/plain;charset=utf-8");
    reveal_strlit("text/plain");
    assert forall|i: int| 0 <= i < all.len() implies #[trigger] all[i].len()
        < X11_SYNC_MARKER_MIME@.len() by {}
    lemma_first_offered(types, all);
    if all.contains(X11_SYNC_MARKER_MIME@) {
        let i = choose|i: int| 0 <= i < all.len() && all[i] == X11_SYNC_MARKER_MIME@;
        assert(all[i].len() < X11_SYNC_MARKER_MIME@.len());
    }
}

proof fn lemma_first_offered(types: Seq<char>, mimes: Seq<Seq<char>>)
    ensures
        first_offered(types, mimes) matches Some(m) ==> mimes.contains(m),
    decreases mimes.len(),
{
    if mimes.len() > 0 {
        let rest = mimes.drop_first();
        lemma_first_offered(types, rest);
        if first_offered(types, rest) is Some && rest.contains(first_offered(types, rest)->0) {
            let m = first_offered(types, rest)->0;
            let i = choose|i: int| 0 <= i < rest.len() && rest[i] == m;
            assert(mimes[i + 1] == m);
        }
        assert(mimes.contains(mimes[0]));
    }
}

/// The most bytes that a hook takes for a type.
pub open spec fn hook_cap(
    candidate: Seq<char>,
    max_text: usize,
    max_image: usize,
    max_file: usize,
) -> usize {
    if "image/"@.is_prefix_of(candidate) {
        max_image
    } else if max_text >= max_file {
        max_text
    } else {
        max_file
    }
}

/// The most bytes that a hook takes for a type.
pub fn hook_cap_of(candidate: &str, max_text: usize, max_image: usize, max_file: usize) -> (res:
    usize)
    ensures
        res == hook_cap(candidate@, max_text, max_image, max_file),
{
    if starts_with(candidate, "image/") {
        max_image
    } else if max_text >= max_file {
        max_text
    } else {
        max_file
    }
}

/// Content that arrives in pieces, up to a limit. Past the limit the rest is taken and
/// thrown away.
pub struct Intake {
    stored: Vec<u8>,
    cap: usize,
    too_big: bool,
}

/// What arrived, where it is within the limit.
pub open spec fn within(arrived: Seq<u8>, cap: nat) -> Option<Seq<u8>> {
    if arrived.len() <= cap {
        Some(arrived)
    } else {
        None
    }
}

impl Intake {
    /// What arrived so far is `arrived`.
    pub closed spec fn holds(&self, arrived: Seq<u8>) -> bool {
        &&& self.too_big == (arrived.len() > self.cap)
        &&& !self.too_big ==> self.stored@ == arrived
    }

    /// The limit.
    pub closed spec fn cap(&self) -> nat {
        self.cap as nat
    }

    /// Nothing arrived yet.
    pub fn new(cap: usize) -> (res: Intake)
        ensures
            res.holds(Seq::empty()),
            res.cap() == cap,
    {
        Intake { stored: Vec::new(), cap, too_big: false }
    }

    /// Takes the next piece.
    pub fn take(&mut self, piece: &[u8])
        ensures
            final(self).cap() == old(self).cap(),
            forall|arrived: Seq<u8>| #[trigger]
                old(self).holds(arrived) ==> final(self).holds(arrived + piece@),
    {
        if !self.too_big {
            if self.stored.len() > self.cap || piece.len() > self.cap - self.stored.len() {
                self.too_big = true;
            } else {
                let ghost before = self.stored@;
                self.stored.extend_from_slice(piece);
                assert(self.stored@ =~= before + piece@);
            }
        }
    }

    /// What arrived, where it is within the limit.
    pub fn finish(self) -> (res: Option<Vec<u8>>)
        ensures
            forall|arrived: Seq<u8>| #[trigger]
                self.holds(arrived) ==> crate::wire::opt_payload(res) == within(
                    arrived,
                    self.cap(),
                ),
    {
        if self.too_big {
            None
        } else {
            Some(self.stored)
        }
    }
}

/// A type of lists of files.
pub open spec fn is_file_list(mime: Seq<char>) -> bool {
    mime == URI_LIST_MIME@ || mime == KDE_URI_LIST_MIME@ || mime == GNOME_COPIED_FILES_MIME@
}

/// Whether a type is one of lists of files.
pub fn file_list(mime: &str) -> (res: bool)
    ensures
        res == is_file_list(mime@),
{
    same(mime, URI_LIST_MIME) || same(mime, KDE_URI_LIST_MIME) || same(
        mime,
        GNOME_COPIED_FILES_MIME,
    )
}

/// `r` stands at `j`, and nothing before it is an equal path.
pub open spec fn is_first(paths: Seq<Seq<u8>>, j: int, r: Seq<u8>) -> bool {
    0 <= j < paths.len() && paths[j] == r && forall|k: int|
        0 <= k < j ==> parts(#[trigger] paths[k]) != parts(r)
}

/// `r` is one of the paths, and the first among equal ones.
pub open spec fn is_first_among(paths: Seq<Seq<u8>>, r: Seq<u8>) -> bool {
    exists|j: int| is_first(paths, j, r)
}

/// `res` holds each path once, in order. Of equal paths it holds the first.
pub open spec fn is_unique(paths: Seq<Seq<u8>>, res: Seq<Seq<u8>>) -> bool {
    let keys = crate::bundle::all_parts(res);
    &&& increasing(keys, |a: Seq<PartView>, b: Seq<PartView>| path_less(a, b))
    &&& forall|i: int| 0 <= i < paths.len() ==> keys.contains(parts(#[trigger] paths[i]))
    &&& forall|i: int|
        0 <= i < res.len() ==> is_first_among(paths, #[trigger] res[i])
}

/// The paths, each once, in order.
pub fn unique_paths(paths: &Vec<Vec<u8>>) -> (res: Vec<Vec<u8>>)
    ensures
        is_unique(paths.deep_view(), res.deep_view()),
{
    let ghost all = paths.deep_view();
    let ghost lt = |a: Seq<PartView>, b: Seq<PartView>| path_less(a, b);
    let mut out: Vec<Vec<u8>> = Vec::new();
    let mut i: usize = 0;
    assert(all.take(0) =~= Seq::<Seq<u8>>::empty());
    proof {
        lemma_path_order();
        assert(strict_total(lt));
    }
    while i < paths.len()
        invariant
            i <= paths@.len(),
            all == paths.deep_view(),
            all.len() == paths@.len(),
            lt == (|a: Seq<PartView>, b: Seq<PartView>| path_less(a, b)),
            strict_total(lt),
            is_unique(all.take(i as int), out.deep_view()),
        decreases paths@.len() - i,
    {
        let ghost seen = all.take(i as int);
        let ghost next = all.take(i + 1);
        let ghost before = out.deep_view();
        let ghost keys = crate::bundle::all_parts(before);
        assert(paths@[i as int].deep_view() =~= paths@[i as int]@);
        let ghost p = paths@[i as int]@;
        assert(next =~= seen.push(p));
        let c = parts_of(paths[i].as_slice());
        let mut at: usize = 0;
        let mut found = false;
        while at < out.len() && !found
            invariant_except_break
                at <= out@.len(),
                before == out.deep_view(),
                before.len() == out@.len(),
                keys == crate::bundle::all_parts(before),
                c.deep_view() == parts(p),
                forall|j: int| 0 <= j < at ==> path_less(#[trigger] keys[j], parts(p)),
                !found,
            ensures
                at <= out@.len(),
                before == out.deep_view(),
                forall|j: int| 0 <= j < at ==> path_less(#[trigger] keys[j], parts(p)),
                found ==> at < out@.len() && keys[at as int] == parts(p),
                !found && at < out@.len() ==> keys[at as int] != parts(p) && !path_less(
                    keys[at as int],
                    parts(p),
                ),
            decreases out@.len() - at,
        {
            assert(out@[at as int].deep_view() =~= out@[at as int]@);
            let k = parts_of(out[at].as_slice());
            assert(keys[at as int] == k.deep_view());
            if same_parts(&k, &c) {
                found = true;
                break;
            }
            if !comes_before(&k, &c) {
                break;
            }
            at += 1;
        }
        if found {
            proof {
                assert(keys.contains(parts(p)));
                assert forall|j: int| 0 <= j < next.len() implies keys.contains(
                    parts(#[trigger] next[j]),
                ) by {
                    if j < seen.len() {
                        assert(next[j] == seen[j]);
                    }
                }
                lemma_first_stays(seen, p, before);
            }
        } else {
            let v = crate::bytes::to_vec(paths[i].as_slice());
            assert(v.deep_view() =~= v@);
            out.insert(at, v);
            proof {
                let after = out.deep_view();
                let keys2 = crate::bundle::all_parts(after);
                let q = parts(p);
                assert(after =~= before.insert(at as int, p));
                assert(keys2 =~= keys.insert(at as int, q));
                if at < keys.len() {
                    assert(lt(q, keys[at as int]) || lt(keys[at as int], q) || q
                        == keys[at as int]);
                }
                assert forall|a: int, b: int| 0 <= a < b < keys2.len() implies lt(
                    #[trigger] keys2[a],
                    #[trigger] keys2[b],
                ) by {
                    if b < at {
                        assert(lt(keys[a], keys[b]));
                    } else if b == at {
                        assert(lt(keys[a], q));
                    } else if a == at {
                        if b - 1 > at {
                            assert(lt(keys[at as int], keys[b - 1]));
                            assert(lt(q, keys[at as int]));
                        }
                    } else if a < at {
                        assert(lt(keys[a], keys[b - 1]));
                    } else {
                        assert(lt(keys[a - 1], keys[b - 1]));
                    }
                }
                assert forall|j: int| 0 <= j < next.len() implies keys2.contains(
                    parts(#[trigger] next[j]),
                ) by {
                    if j < seen.len() {
                        assert(next[j] == seen[j]);
                        assert(keys.contains(parts(seen[j])));
                        let m = choose|m: int| 0 <= m < keys.len() && keys[m] == parts(seen[j]);
                        if m < at {
                            assert(keys2[m] == keys[m]);
                        } else {
                            assert(keys2[m + 1] == keys[m]);
                        }
                    } else {
                        assert(keys2[at as int] == q);
                    }
                }
                assert forall|j: int| 0 <= j < seen.len() implies parts(#[trigger] seen[j]) != q by {
                    if parts(seen[j]) == q {
                        let m = choose|m: int| 0 <= m < keys.len() && keys[m] == q;
                        if m < at {
                            assert(lt(keys[m], q));
                        } else if m > at {
                            assert(lt(keys[at as int], keys[m]));
                        }
                    }
                }
                lemma_first_stays(seen, p, before);
                assert forall|r: int| 0 <= r < after.len() implies is_first_among(
                    next,
                    #[trigger] after[r],
                ) by {
                    if r == at {
                        assert forall|k: int| 0 <= k < i implies parts(#[trigger] next[k]) != q by {
                            assert(next[k] == seen[k]);
                        }
                        assert(is_first(next, i as int, after[r]));
                    } else {
                        let o = if r < at {
                            r
                        } else {
                            r - 1
                        };
                        assert(after[r] == before[o]);
                        let j = choose|j: int| is_first(next, j, before[o]);
                        assert(is_first(next, j, after[r]));
                    }
                }
            }
        }
        i += 1;
    }
    assert(all.take(i as int) =~= all);
    out
}

/// What came first among the paths seen still comes first when one more is seen.
proof fn lemma_first_stays(seen: Seq<Seq<u8>>, p: Seq<u8>, res: Seq<Seq<u8>>)
    requires
        is_unique(seen, res),
    ensures
        forall|i: int|
            0 <= i < res.len() ==> is_first_among(seen.push(p), #[trigger] res[i]),
{
    let next = seen.push(p);
    assert forall|i: int| 0 <= i < res.len() implies is_first_among(next, #[trigger] res[i]) by {
        let j = choose|j: int| is_first(seen, j, res[i]);
        assert forall|k: int| 0 <= k < j implies parts(#[trigger] next[k]) != parts(res[i]) by {
            assert(next[k] == seen[k]);
        }
        assert(is_first(next, j, res[i]));
    }
}

/// What holds each path once, in order, is determined by the paths.
pub proof fn law_unique_paths_are_determined(
    paths: Seq<Seq<u8>>,
    a: Seq<Seq<u8>>,
    b: Seq<Seq<u8>>,
)
    requires
        is_unique(paths, a),
        is_unique(paths, b),
    ensures
        a == b,
{
    let lt = |x: Seq<PartView>, y: Seq<PartView>| path_less(x, y);
    let ka = crate::bundle::all_parts(a);
    let kb = crate::bundle::all_parts(b);
    lemma_path_order();
    assert forall|x: Seq<PartView>| ka.contains(x) <==> kb.contains(x) by {
        if ka.contains(x) {
            let i = choose|i: int| 0 <= i < ka.len() && ka[i] == x;
            let j = choose|j: int| is_first(paths, j, a[i]);
            assert(kb.contains(parts(paths[j])));
        }
        if kb.contains(x) {
            let i = choose|i: int| 0 <= i < kb.len() && kb[i] == x;
            let j = choose|j: int| is_first(paths, j, b[i]);
            assert(ka.contains(parts(paths[j])));
        }
    }
    crate::order::law_increasing_is_unique(ka, kb, lt);
    assert(ka == kb);
    assert(a.len() == ka.len());
    assert(b.len() == kb.len());
    assert forall|i: int| 0 <= i < a.len() implies a[i] == b[i] by {
        assert(ka[i] == parts(a[i]));
        assert(kb[i] == parts(b[i]));
        assert(is_first_among(paths, a[i]));
        assert(is_first_among(paths, b[i]));
        let j = choose|j: int| is_first(paths, j, a[i]);
        let k = choose|k: int| is_first(paths, k, b[i]);
        if j < k {
            assert(parts(paths[j]) != parts(b[i]));
        } else if k < j {
            assert(parts(paths[k]) != parts(a[i]));
        }
    }
    assert(a =~= b);
}

/// What is sent for content of a type: an image becomes a PNG where the mode asks for
/// it; one that cannot be converted is not sent.
pub open spec fn outgoing(
    mime: Seq<char>,
    mode: ImageMode,
    bytes: Seq<u8>,
    png: Option<Seq<u8>>,
) -> Option<(Seq<char>, Seq<u8>)> {
    if "image/"@.is_prefix_of(mime) && mode == ImageMode::ForcePng {
        match png {
            Some(p) => Some(("image/png"@, p)),
            None => None,
        }
    } else {
        Some((mime, bytes))
    }
}

/// Content to be sent, and its digest.
#[derive(Debug)]
pub struct Outgoing {
    pub mime: String,
    pub bytes: Vec<u8>,
    pub sha: String,
}

/// Content to be sent, and its digest.
#[verifier::ext_equal]
pub struct OutgoingView {
    pub mime: Seq<char>,
    pub bytes: Seq<u8>,
    pub sha: Seq<char>,
}

impl View for Outgoing {
    type V = OutgoingView;

    open spec fn view(&self) -> OutgoingView {
        OutgoingView { mime: self.mime@, bytes: self.bytes@, sha: self.sha@ }
    }
}

/// Content of a type, with its own digest.
pub open spec fn with_digest(mime: Seq<char>, bytes: Seq<u8>) -> OutgoingView {
    OutgoingView { mime, bytes, sha: sha256_text(bytes) }
}

/// `res` is what is sent for `what`.
pub open spec fn is_outgoing(res: Option<Outgoing>, what: Option<(Seq<char>, Seq<u8>)>) -> bool {
    match what {
        Some(t) => res is Some && res->0@ == with_digest(t.0, t.1),
        None => res is None,
    }
}

/// What is sent for content of a type, given the content as PNG.
pub fn outgoing_of(mime: &str, mode: ImageMode, bytes: Vec<u8>, png: Option<Vec<u8>>) -> (res: Option<
    Outgoing,
>)
    ensures
        is_outgoing(res, outgoing(mime@, mode, bytes@, crate::wire::opt_payload(png))),
{
    if starts_with(mime, "image/") && mode == ImageMode::ForcePng {
        match png {
            Some(p) => {
                let sha = sha256_hex(p.as_slice());
                Some(Outgoing { mime: "image/png".to_string(), bytes: p, sha })
            },
            None => None,
        }
    } else {
        let sha = sha256_hex(bytes.as_slice());
        Some(Outgoing { mime: mime.to_string(), bytes, sha })
    }
}

/// What is sent for content of a type.
pub fn prepare(mime: &str, mode: ImageMode, bytes: Vec<u8>) -> (res: Option<Outgoing>)
    ensures
        is_outgoing(res, outgoing(mime@, mode, bytes@, as_png(bytes@))),
{
    let png: Option<Vec<u8>> = if starts_with(mime, "image/") && mode == ImageMode::ForcePng {
        match to_png(bytes.as_slice()) {
            Ok(p) => Some(p),
            Err(_) => None,
        }
    } else {
        None
    };
    outgoing_of(mime, mode, bytes, png)
}

/// The message for content of a type: a text message for text, else an image message.
pub open spec fn content_view(
    event_id: Seq<char>,
    ts: u64,
    device_id: Seq<char>,
    device_name: Seq<char>,
    room: Seq<char>,
    mime: Seq<char>,
    bytes: Seq<u8>,
    sha: Seq<char>,
) -> MessageView {
    let m = if "text/"@.is_prefix_of(mime) {
        MessageView {
            payload: Some(bytes),
            size: bytes.len() as usize,
            ..text_view(event_id, ts, device_id, room, Seq::empty())
        }
    } else {
        image_view(event_id, ts, device_id, room, mime, bytes)
    };
    MessageView { sender_name: sender_name(device_name), sha256: Some(sha), ..m }
}

/// The message for content.
pub fn content_message(device_id: &str, device_name: &str, room: &str, out: Outgoing) -> (res:
    Message)
    ensures
        is_random_id(res.event_id@),
        res@ == content_view(
            res.event_id@,
            res.ts,
            device_id@,
            device_name@,
            room@,
            out.mime@,
            out.bytes@,
            out.sha@,
        ),
{
    let Outgoing { mime, bytes, sha } = out;
    let mut m = if starts_with(mime.as_str(), "text/") {
        let mut m = Message::new_text(device_id, room, "");
        m.size = bytes.len();
        m.payload = Some(bytes);
        assert(""@ =~= Seq::<char>::empty()) by {
            reveal_strlit("");
        }
        m
    } else {
        Message::new_image(device_id, room, mime.as_str(), bytes)
    };
    m.sender_name = sender_name_of(device_name);
    m.sha256 = Some(sha);
    m
}

/// Content of a type that is published: not empty, and within the limit for text or
/// images.
pub open spec fn is_publishable(
    mime: Seq<char>,
    len: nat,
    max_text: nat,
    max_image: nat,
) -> bool {
    &&& len > 0
    &&& "text/"@.is_prefix_of(mime) ==> len <= max_text
    &&& "image/"@.is_prefix_of(mime) ==> len <= max_image
}

/// Whether content of a type is published.
pub fn publishable(mime: &str, len: usize, max_text: usize, max_image: usize) -> (res: bool)
    ensures
        res == is_publishable(mime@, len as nat, max_text as nat, max_image as nat),
{
    if len == 0 {
        return false;
    }
    if starts_with(mime, "text/") && len > max_text {
        return false;
    }
    !(starts_with(mime, "image/") && len > max_image)
}

/// The type to publish when one is asked for. `auto` stands for the preferred one, and
/// is given up where the types cannot be listed, where the content came from the relay, or
/// where another type changed.
pub open spec fn publish_mime(
    asked: Seq<char>,
    types: Option<Seq<char>>,
    mode: ImageMode,
    candidate: Option<Seq<char>>,
) -> Option<Seq<char>> {
    if asked != "auto"@ {
        Some(asked)
    } else {
        match types {
            Some(t) => if offered(t, APPLIED_MARKER_MIME@) {
                None
            } else {
                match best_mime(t, mode) {
                    Some(m) => if candidate is Some && candidate->0 != m {
                        None
                    } else {
                        Some(m)
                    },
                    None => None,
                }
            },
            None => None,
        }
    }
}

/// The type to publish when one is asked for.
pub fn publish_mime_of(
    asked: &str,
    types: Option<&str>,
    mode: ImageMode,
    candidate: Option<&str>,
) -> (res: Option<String>)
    ensures
        crate::wire::opt_text(res) == publish_mime(
            asked@,
            opt_str(types),
            mode,
            opt_str(candidate),
        ),
{
    if !same(asked, "auto") {
        return Some(asked.to_string());
    }
    let m = match types {
        Some(t) => {
            if is_marked(t) {
                return None;
            }
            match choose_mime(t, mode) {
                Some(m) => m,
                None => return None,
            }
        },
        None => return None,
    };
    if let Some(c) = candidate {
        if !same(c, m) {
            return None;
        }
    }
    Some(m.to_string())
}

/// A PNG is not published beside another image format, which stands for it.
pub open spec fn png_yields(mime: Seq<char>, mode: ImageMode, types: Seq<char>) -> bool {
    mime == "image/png"@ && mode == ImageMode::MultiMime && (offered(types, "image/jpeg"@)
        || offered(types, "image/webp"@) || offered(types, "image/gif"@))
}

/// Whether a PNG is left to another image format.
pub fn png_yields_to_other(mime: &str, mode: ImageMode, types: &str) -> (res: bool)
    ensures
        res == png_yields(mime@, mode, types@),
{
    same(mime, "image/png") && mode == ImageMode::MultiMime && (any_line(types, "image/jpeg")
        || any_line(types, "image/webp") || any_line(types, "image/gif"))
}

/// Whether content came from the relay.
pub fn is_marked(types: &str) -> (res: bool)
    ensures
        res == offered(types@, APPLIED_MARKER_MIME@),
{
    any_line(types, APPLIED_MARKER_MIME)
}

/// What was sent last, when the clipboard is looked at again and again.
pub struct Poll {
    last_text: Option<String>,
    last_image: TextMap<String>,
}

/// What was sent last.
#[verifier::ext_equal]
pub struct PollView {
    pub last_text: Option<Seq<char>>,
    pub last_image: Map<Seq<char>, Seq<char>>,
}

impl View for Poll {
    type V = PollView;

    closed spec fn view(&self) -> PollView {
        PollView {
            last_text: crate::wire::opt_text(self.last_text),
            last_image: self.last_image@.map_values(|s: String| s@),
        }
    }
}

/// The digest of text that is new: not empty, within the limit, and not what was sent
/// last.
pub open spec fn new_text(p: PollView, bytes: Seq<u8>, max: nat) -> Option<Seq<char>> {
    if bytes.len() == 0 || bytes.len() > max || p.last_text == Some(sha256_text(bytes)) {
        None
    } else {
        Some(sha256_text(bytes))
    }
}

/// What is sent for an image found under a type. In the mode that offers several
/// types a PNG is left out where the image is there in another format.
pub open spec fn new_image(
    p: PollView,
    mime: Seq<char>,
    bytes: Seq<u8>,
    max: nat,
    mode: ImageMode,
    other_found: bool,
    png: Option<Seq<u8>>,
) -> Option<(Seq<char>, Seq<u8>)> {
    if bytes.len() == 0 || bytes.len() > max {
        None
    } else if mode == ImageMode::MultiMime && mime == "image/png"@ && other_found {
        None
    } else {
        match outgoing(mime, mode, bytes, png) {
            Some(t) => if p.last_image.contains_key(t.0) && p.last_image[t.0] == sha256_text(t.1) {
                None
            } else {
                Some(t)
            },
            None => None,
        }
    }
}

impl Poll {
    /// No type is listed twice.
    pub closed spec fn wf(&self) -> bool {
        self.last_image.wf()
    }

    /// Nothing sent yet.
    pub fn new() -> (res: Poll)
        ensures
            res.wf(),
            res@ == (PollView { last_text: None, last_image: Map::empty() }),
    {
        let res = Poll { last_text: None, last_image: TextMap::new() };
        assert(res@.last_image =~= Map::<Seq<char>, Seq<char>>::empty());
        res
    }

    /// The digest of text that is new.
    pub fn text(&self, bytes: &[u8], max: usize) -> (res: Option<String>)
        ensures
            crate::wire::opt_text(res) == new_text(self@, bytes@, max as nat),
    {
        if bytes.len() == 0 || bytes.len() > max {
            return None;
        }
        let sha = sha256_hex(bytes);
        if let Some(last) = &self.last_text {
            if same(last.as_str(), sha.as_str()) {
                return None;
            }
        }
        Some(sha)
    }

    /// Text with this digest has been sent.
    pub fn text_sent(&mut self, sha: &str)
        requires
            old(self).wf(),
        ensures
            final(self).wf(),
            final(self)@ == (PollView { last_text: Some(sha@), ..old(self)@ }),
    {
        self.last_text = Some(sha.to_string());
    }

    /// What is sent for an image found under a type.
    pub fn image(&self, mime: &str, bytes: Vec<u8>, max: usize, mode: ImageMode, other_found: bool) -> (res:
        Option<Outgoing>)
        requires
            self.wf(),
            "image/"@.is_prefix_of(mime@),
        ensures
            is_outgoing(
                res,
                new_image(
                    self@,
                    mime@,
                    bytes@,
                    max as nat,
                    mode,
                    other_found,
                    as_png(bytes@),
                ),
            ),
    {
        if bytes.len() == 0 || bytes.len() > max {
            return None;
        }
        if mode == ImageMode::MultiMime && other_found && same(mime, "image/png") {
            return None;
        }
        let out = match prepare(mime, mode, bytes) {
            Some(o) => o,
            None => return None,
        };
        if let Some(last) = self.last_image.get(out.mime.as_str()) {
            if same(last.as_str(), out.sha.as_str()) {
                return None;
            }
        }
        Some(out)
    }

    /// An image of a type with this digest has been sent.
    pub fn image_sent(&mut self, mime: &str, sha: &str)
        requires
            old(self).wf(),
        ensures
            final(self).wf(),
            final(self)@ == (PollView {
                last_image: old(self)@.last_image.insert(mime@, sha@),
                ..old(self)@
            }),
    {
        let ghost before = self@.last_image;
        self.last_image.insert(mime, sha.to_string());
        assert(self@.last_image =~= before.insert(mime@, sha@));
    }
}

/// Text that has just been sent is not sent again.
pub proof fn law_sent_text_is_not_new(p: PollView, bytes: Seq<u8>, max: nat)
    ensures
        new_text(PollView { last_text: Some(sha256_text(bytes)), ..p }, bytes, max) is None,
{
}

/// An image that has just been sent under its type is not sent again.
pub proof fn law_sent_image_is_not_new(
    p: PollView,
    mime: Seq<char>,
    bytes: Seq<u8>,
    max: nat,
    mode: ImageMode,
    other_found: bool,
    png: Option<Seq<u8>>,
)
    ensures
        match new_image(p, mime, bytes, max, mode, other_found, png) {
            Some(t) => new_image(
                PollView { last_image: p.last_image.insert(t.0, sha256_text(t.1)), ..p },
                mime,
                bytes,
                max,
                mode,
                other_found,
                png,
            ) is None,
            None => true,
        },
{
}

/// The types that are watched for changes.
pub open spec fn watched() -> Seq<Seq<char>> {
    seq![
        URI_LIST_MIME@,
        GNOME_COPIED_FILES_MIME@,
        KDE_URI_LIST_MIME@,
        TEXT_MIME@,
        "text/plain"@,
        "image/png"@,
        "image/jpeg"@,
        "image/webp"@,
        "image/gif"@,
    ]
}

/// The types that are watched for changes.
pub fn watch_mimes() -> (res: Vec<&'static str>)
    ensures
        res@.len() == watched().len(),
        forall|i: int| 0 <= i < res@.len() ==> (#[trigger] res@[i])@ == watched()[i],
{
    let images = crate::images::image_mimes();
    let mut out: Vec<&'static str> = Vec::new();
    out.push(URI_LIST_MIME);
    out.push(GNOME_COPIED_FILES_MIME);
    out.push(KDE_URI_LIST_MIME);
    out.push(TEXT_MIME);
    out.push("text/plain");
    out.push(images[0]);
    out.push(images[1]);
    out.push(images[2]);
    out.push(images[3]);
    out
}

/// How the clipboard is watched.
#[derive(Clone, Copy, Debug, PartialEq, Eq, Structural)]
pub enum WatchMode {
    /// A process for each type reports changes.
    Watch,
    /// The clipboard is looked at again and again.
    Poll,
}

/// Reads how the clipboard is watched. The error is what to tell the user.
pub fn parse_watch_mode(s: &str) -> (res: Result<WatchMode, String>)
    ensures
        s@ == "watch"@ ==> res == Ok::<WatchMode, String>(WatchMode::Watch),
        s@ != "watch"@ && s@ == "poll"@ ==> res == Ok::<WatchMode, String>(WatchMode::Poll),
        s@ != "watch"@ && s@ != "poll"@ ==> res is Err && res->Err_0@ == "invalid --mode "@ + s@
            + ", expected watch|poll"@,
{
    if same(s, "watch") {
        return Ok(WatchMode::Watch);
    }
    if same(s, "poll") {
        return Ok(WatchMode::Poll);
    }
    let mut e = "invalid --mode ".to_string();
    e.append(s);
    e.append(", expected watch|poll");
    Err(e)
}

/// A type under which files are listed.
pub open spec fn names_list(m: Seq<char>) -> bool {
    m == "text/uri-list"@ || m == "application/x-kde4-urilist"@ || m
        == "x-special/gnome-copied-files"@
}

/// A type of images that are carried.
pub open spec fn names_image(m: Seq<char>) -> bool {
    m == "image/png"@ || m == "image/jpeg"@ || m == "image/webp"@ || m == "image/gif"@
}

/// A type of plain text.
pub open spec fn names_text(m: Seq<char>) -> bool {
    m == "text/plain;charset=utf-8"@ || m == "text/plain"@
}

/// The first of the types that is on offer stands before all others that are.
proof fn lemma_first_is_first(types: Seq<char>, mimes: Seq<Seq<char>>)
    ensures
        match first_offered(types, mimes) {
            Some(m) => exists|i: int|
                0 <= i < mimes.len() && #[trigger] mimes[i] == m && offered(types, m) && forall|j: int|
                    0 <= j < i ==> !offered(types, #[trigger] mimes[j]),
            None => forall|j: int| 0 <= j < mimes.len() ==> !offered(types, #[trigger] mimes[j]),
        },
    decreases mimes.len(),
{
    if mimes.len() > 0 && !offered(types, mimes[0]) {
        let rest = mimes.drop_first();
        lemma_first_is_first(types, rest);
        match first_offered(types, rest) {
            Some(m) => {
                let i = choose|i: int|
                    0 <= i < rest.len() && #[trigger] rest[i] == m && offered(types, m) && forall|
                        j: int,
                    |
                        0 <= j < i ==> !offered(types, #[trigger] rest[j]);
                assert(mimes[i + 1] == m);
                assert forall|j: int| 0 <= j < i + 1 implies !offered(types, #[trigger] mimes[j]) by {
                    if j > 0 {
                        assert(rest[j - 1] == mimes[j]);
                    }
                }
            },
            None => {
                assert forall|j: int| 0 <= j < mimes.len() implies !offered(
                    types,
                    #[trigger] mimes[j],
                ) by {
                    if j > 0 {
                        assert(rest[j - 1] == mimes[j]);
                    }
                }
            },
        }
    } else if mimes.len() > 0 {
        assert(mimes[0] == first_offered(types, mimes)->0);
    }
}

/// Where a type that is carried is on offer, some type is published, and it is on offer. Lists
/// of files come before images, and images before text.
pub proof fn law_what_is_carried_is_published(types: Seq<char>, mode: ImageMode, m: Seq<char>)
    requires
        offered(types, m),
        names_list(m) || names_image(m) || names_text(m),
    ensures
        best_mime(types, mode) is Some,
        offered(types, best_mime(types, mode)->0),
        names_list(m) ==> names_list(best_mime(types, mode)->0),
        names_image(m) ==> names_list(best_mime(types, mode)->0) || names_image(
            best_mime(types, mode)->0,
        ),
{
    let all = preference(mode);
    lemma_first_is_first(types, all);
    assert(all[0] == "text/uri-list"@);
    assert(all[1] == "application/x-kde4-urilist"@);
    assert(all[2] == "x-special/gnome-copied-files"@);
    assert(all[7] == "text/plain;charset=utf-8"@);
    assert(all[8] == "text/plain"@);
    assert(all[3] == image_preference(mode)[0] && all[4] == image_preference(mode)[1] && all[5]
        == image_preference(mode)[2] && all[6] == image_preference(mode)[3]);
}

/// Only types that are carried are published, and only where they are on offer.
pub proof fn law_only_what_is_carried_is_published(types: Seq<char>, mode: ImageMode)
    ensures
        best_mime(types, mode) matches Some(m) ==> offered(types, m) && (names_list(m)
            || names_image(m) || names_text(m)),
{
    let all = preference(mode);
    lemma_first_is_first(types, all);
    assert(all[0] == "text/uri-list"@);
    assert(all[1] == "application/x-kde4-urilist"@);
    assert(all[2] == "x-special/gnome-copied-files"@);
    assert(all[7] == "text/plain;charset=utf-8"@);
    assert(all[8] == "text/plain"@);
    assert(all[3] == image_preference(mode)[0] && all[4] == image_preference(mode)[1] && all[5]
        == image_preference(mode)[2] && all[6] == image_preference(mode)[3]);
    if best_mime(types, mode) is Some {
        let m = best_mime(types, mode)->0;
        let i = choose|i: int|
            0 <= i < all.len() && #[trigger] all[i] == m && offered(types, m) && forall|j: int|
                0 <= j < i ==> !offered(types, #[trigger] all[j]);
        assert(0 <= i < 9);
    }
}

/// Among lists of files, among images and among texts the order is fixed. A PNG is the first
/// of the images, and where other formats are carried beside it the last.
pub proof fn law_order_of_types(types: Seq<char>, mode: ImageMode)
    ensures
        ({
            let b = best_mime(types, mode)->0;
            &&& offered(types, "text/uri-list"@) ==> b == "text/uri-list"@
            &&& offered(types, "application/x-kde4-urilist"@) ==> b == "text/uri-list"@ || b
                == "application/x-kde4-urilist"@
            &&& mode != ImageMode::MultiMime && offered(types, "image/png"@) ==> names_list(b) || b
                == "image/png"@
            &&& mode == ImageMode::MultiMime && offered(types, "image/jpeg"@) ==> names_list(b)
                || b == "image/jpeg"@
            &&& mode == ImageMode::MultiMime && offered(types, "image/webp"@) ==> names_list(b)
                || b == "image/jpeg"@ || b == "image/webp"@
            &&& mode == ImageMode::MultiMime && offered(types, "image/gif"@) ==> names_list(b) || b
                == "image/jpeg"@ || b == "image/webp"@ || b == "image/gif"@
            &&& mode != ImageMode::MultiMime && offered(types, "image/jpeg"@) ==> names_list(b)
                || b == "image/png"@ || b == "image/jpeg"@
            &&& mode != ImageMode::MultiMime && offered(types, "image/webp"@) ==> names_list(b)
                || b == "image/png"@ || b == "image/jpeg"@ || b == "image/webp"@
            &&& offered(types, "text/plain;charset=utf-8"@) ==> names_list(b) || names_image(b) || b
                == "text/plain;charset=utf-8"@
        }),
{
    let all = preference(mode);
    lemma_first_is_first(types, all);
    assert(all[0] == "text/uri-list"@);
    assert(all[1] == "application/x-kde4-urilist"@);
    assert(all[2] == "x-special/gnome-copied-files"@);
    assert(all[7] == "text/plain;charset=utf-8"@);
    assert(all[8] == "text/plain"@);
    assert(all[3] == image_preference(mode)[0] && all[4] == image_preference(mode)[1] && all[5]
        == image_preference(mode)[2] && all[6] == image_preference(mode)[3]);
    if best_mime(types, mode) is Some {
        let m = best_mime(types, mode)->0;
        let i = choose|i: int|
            0 <= i < all.len() && #[trigger] all[i] == m && offered(types, m) && forall|j: int|
                0 <= j < i ==> !offered(types, #[trigger] all[j]);
        assert(0 <= i < 9);
    }
}

/// Where content of a type that is carried is there, and did not come from the relay, the hook
/// of one type publishes it, and so does the command that publishes the preferred type.
pub proof fn law_a_change_is_published(types: Seq<char>, mode: ImageMode, m: Seq<char>)
    requires
        offered(types, m),
        names_list(m) || names_image(m) || names_text(m),
        !offered(types, "application/x-multicliprelay-applied"@),
    ensures
        exists|c: Seq<char>|
            (names_list(c) || names_image(c) || names_text(c)) && offered(types, c)
                && #[trigger] hook_mime(types, mode, c) == Some(c) && publish_mime(
                "auto"@,
                Some(types),
                mode,
                Some(c),
            ) == Some(c) && publish_mime("auto"@, Some(types), mode, None) == Some(c),
{
    law_what_is_carried_is_published(types, mode, m);
    law_only_what_is_carried_is_published(types, mode);
    let c = best_mime(types, mode)->0;
    assert(hook_mime(types, mode, c) == Some(c));
}

/// On a list with one type on each line, the types on offer are those that are listed.
pub proof fn law_listed_types_are_on_offer(list: Seq<Seq<char>>, mime: Seq<char>)
    requires
        forall|i: int|
            0 <= i < list.len() ==> !(#[trigger] list[i]).contains('\n') && list[i].len() > 0
                && !crate::text::is_white(list[i][0]) && !crate::text::is_white(list[i].last()),
    ensures
        offered(crate::text::ended_lines(list), mime) <==> list.contains(mime),
{
    crate::text::law_a_line_is_found(list, mime);
    assert forall|i: int| 0 <= i < list.len() implies crate::text::trimmed(#[trigger] list[i])
        == list[i] by {
        crate::text::lemma_trimmed(list[i]);
    }
    if list.contains(mime) {
        let i = choose|i: int| 0 <= i < list.len() && list[i] == mime;
        assert(crate::text::trimmed(list[i]) == mime);
    }
}

/// Content is sent as it is, under its own type; only images under the mode that asks for PNG
/// are sent as the PNG made of them.
pub proof fn law_content_is_sent_as_it_is(
    mime: Seq<char>,
    mode: ImageMode,
    bytes: Seq<u8>,
    png: Option<Seq<u8>>,
)
    ensures
        mode != ImageMode::ForcePng || !"image/"@.is_prefix_of(mime) ==> outgoing(
            mime,
            mode,
            bytes,
            png,
        ) == Some((mime, bytes)),
        mode == ImageMode::ForcePng && "image/"@.is_prefix_of(mime) ==> match png {
            Some(p) => outgoing(mime, mode, bytes, png) == Some(("image/png"@, p)),
            None => outgoing(mime, mode, bytes, png) is None,
        },
        with_digest(mime, bytes).mime == mime,
        with_digest(mime, bytes).bytes == bytes,
        with_digest(mime, bytes).sha == sha256_text(bytes),
{
}

/// The message for content carries its bytes and its digest, for the room, from the device: as
/// text where its type is one of text, as an image of its type otherwise.
pub proof fn law_message_carries_the_content(
    event_id: Seq<char>,
    ts: u64,
    device_id: Seq<char>,
    device_name: Seq<char>,
    room: Seq<char>,
    mime: Seq<char>,
    bytes: Seq<u8>,
    sha: Seq<char>,
)
    ensures
        ({
            let m = content_view(event_id, ts, device_id, device_name, room, mime, bytes, sha);
            &&& m.payload == Some(bytes)
            &&& m.size == bytes.len() as usize
            &&& m.sha256 == Some(sha)
            &&& m.room == room
            &&& m.device_id == device_id
            &&& m.event_id == event_id
            &&& m.ts == ts
            &&& m.sender_name == sender_name(device_name)
            &&& m.name is None
            &&& "text/"@.is_prefix_of(mime) ==> m.kind == crate::message::Kind::Text && m.mime == Some(
                "text/plain;charset=utf-8"@,
            )
            &&& !"text/"@.is_prefix_of(mime) ==> m.kind == crate::message::Kind::Image && m.mime == Some(mime)
        }),
{
}

/// Content that is not empty and within the limit of its kind is published; nothing else is.
pub proof fn law_what_is_within_the_limits(mime: Seq<char>, len: nat, max_text: nat, max_image: nat)
    ensures
        len == 0 ==> !is_publishable(mime, len, max_text, max_image),
        0 < len && len <= max_text && len <= max_image ==> is_publishable(
            mime,
            len,
            max_text,
            max_image,
        ),
        "text/"@.is_prefix_of(mime) ==> (is_publishable(mime, len, max_text, max_image) <==> 0 < len
            <= max_text),
        "image/"@.is_prefix_of(mime) ==> (is_publishable(mime, len, max_text, max_image) <==> 0
            < len <= max_image),
{
    reveal_strlit("text/");
    reveal_strlit("image/");
    if "text/"@.is_prefix_of(mime) {
        assert(mime[0] == 't') by {
            assert(mime.take(5)[0] == "text/"@[0]);
        }
    }
    if "image/"@.is_prefix_of(mime) {
        assert(mime[0] == 'i') by {
            assert(mime.take(6)[0] == "image/"@[0]);
        }
    }
}

/// Text within the limit is new, under its own digest, unless it was sent last.
pub proof fn law_new_text(p: PollView, bytes: Seq<u8>, max: nat)
    ensures
        0 < bytes.len() <= max && p.last_text != Some(sha256_text(bytes)) ==> new_text(p, bytes, max)
            == Some(sha256_text(bytes)),
        new_text(p, bytes, max) is Some ==> 0 < bytes.len() <= max,
{
}

/// An image within the limit is new, and goes out as it is, unless it was the last sent under
/// its type; a PNG beside another format is left to that one where several types are offered.
pub proof fn law_new_image(
    p: PollView,
    mime: Seq<char>,
    bytes: Seq<u8>,
    max: nat,
    mode: ImageMode,
    other_found: bool,
    png: Option<Seq<u8>>,
)
    requires
        0 < bytes.len() <= max,
        mode != ImageMode::ForcePng,
        !(mode == ImageMode::MultiMime && mime == "image/png"@ && other_found),
        !(p.last_image.contains_key(mime) && p.last_image[mime] == sha256_text(bytes)),
    ensures
        new_image(p, mime, bytes, max, mode, other_found, png) == Some((mime, bytes)),
{
}

/// Under the mode that asks for PNG, the PNG of a new image goes out, unless it was the last
/// sent.
pub proof fn law_new_image_as_png(
    p: PollView,
    mime: Seq<char>,
    bytes: Seq<u8>,
    max: nat,
    other_found: bool,
    png: Seq<u8>,
)
    requires
        "image/"@.is_prefix_of(mime),
        0 < bytes.len() <= max,
        !(p.last_image.contains_key("image/png"@) && p.last_image["image/png"@] == sha256_text(
            png,
        )),
    ensures
        new_image(p, mime, bytes, max, ImageMode::ForcePng, other_found, Some(png)) == Some(
            ("image/png"@, png),
        ),
{
}

/// A type that is asked for by name is published, whatever is on offer; what is published of
/// itself is the preferred type on offer, for the hook of that type or where no hook asks.
pub proof fn law_which_type_is_published(
    asked: Seq<char>,
    types: Seq<char>,
    mode: ImageMode,
    candidate: Seq<char>,
)
    ensures
        asked != "auto"@ ==> publish_mime(asked, Some(types), mode, Some(candidate)) == Some(asked)
            && publish_mime(asked, None, mode, None) == Some(asked),
        !offered(types, "application/x-multicliprelay-applied"@) ==> publish_mime(
            "auto"@,
            Some(types),
            mode,
            None,
        ) == best_mime(types, mode),
        publish_mime("auto"@, Some(types), mode, Some(candidate)) == hook_mime(
            types,
            mode,
            candidate,
        ),
        publish_mime("auto"@, None, mode, Some(candidate)) is None,
{
}

/// A hook takes as much of an image as images may have, and of anything else as much as both
/// text and files may have.
pub proof fn law_what_a_hook_takes(
    candidate: Seq<char>,
    max_text: usize,
    max_image: usize,
    max_file: usize,
)
    ensures
        ({
            let cap = hook_cap(candidate, max_text, max_image, max_file);
            &&& "image/"@.is_prefix_of(candidate) ==> cap == max_image
            &&& !"image/"@.is_prefix_of(candidate) ==> cap >= max_text && cap >= max_file && (cap
                == max_text || cap == max_file)
        }),
{
}

/// What arrives within the limit is kept whole.
pub proof fn law_what_arrives_is_kept(arrived: Seq<u8>, cap: nat)
    ensures
        arrived.len() <= cap ==> within(arrived, cap) == Some(arrived),
        arrived.len() > cap ==> within(arrived, cap) is None,
{
}

/// Lists of files are those of three types.
pub proof fn law_types_of_lists(mime: Seq<char>)
    ensures
        is_file_list(mime) <==> mime == "text/uri-list"@ || mime == "application/x-kde4-urilist"@
            || mime == "x-special/gnome-copied-files"@,
{
}

/// Every path is kept, once, and nothing is added.
pub proof fn law_each_path_once(paths: Seq<Seq<u8>>, res: Seq<Seq<u8>>, i: int, k: int, l: int)
    requires
        is_unique(paths, res),
        0 <= i < paths.len(),
        0 <= k < l < res.len(),
    ensures
        exists|j: int| 0 <= j < res.len() && parts(#[trigger] res[j]) == parts(paths[i]),
        paths.contains(res[k]),
        parts(res[k]) != parts(res[l]),
{
    let keys = crate::bundle::all_parts(res);
    assert(keys.contains(parts(paths[i])));
    let j = choose|j: int| 0 <= j < keys.len() && keys[j] == parts(paths[i]);
    assert(parts(res[j]) == parts(paths[i]));
    assert(is_first_among(paths, res[k]));
    lemma_path_order();
    let lt = |a: Seq<PartView>, b: Seq<PartView>| path_less(a, b);
    assert(strict_total(lt));
    assert(lt(keys[k], keys[l]));
    assert(keys[k] == parts(res[k]) && keys[l] == parts(res[l]));
    assert(!lt(keys[k], keys[k]));
}

/// Every type that is carried is watched for changes, and nothing else is.
pub proof fn law_what_is_watched(m: Seq<char>)
    ensures
        watched().contains(m) <==> names_list(m) || names_image(m) || names_text(m),
{
    let w = watched();
    assert(w[0] == "text/uri-list"@);
    assert(w[1] == "x-special/gnome-copied-files"@);
    assert(w[2] == "application/x-kde4-urilist"@);
    assert(w[3] == "text/plain;charset=utf-8"@);
    assert(w[4] == "text/plain"@);
    assert(w[5] == "image/png"@);
    assert(w[6] == "image/jpeg"@);
    assert(w[7] == "image/webp"@);
    assert(w[8] == "image/gif"@);
}

/// A PNG is left to another format only where several types are offered and one of the three
/// others is there.
pub proof fn law_when_a_png_is_left_out(mime: Seq<char>, mode: ImageMode, types: Seq<char>)
    ensures
        png_yields(mime, mode, types) <==> mime == "image/png"@ && mode == ImageMode::MultiMime && (
        offered(types, "image/jpeg"@) || offered(types, "image/webp"@) || offered(
            types,
            "image/gif"@,
        )),
{
}

} // verus!
