//! The node program: its locks, its device id, what it prints of messages, and the
//! settings that it hands to its hooks.

use crate::apply::{opt_str, TEXT_MIME};
use crate::bytes::{lossy, lossy_text};
use crate::consts::{GNOME_COPIED_FILES_MIME, KDE_URI_LIST_MIME, URI_LIST_MIME};
use crate::dedup::{last_sent, read_last_sent};
use crate::hash::{sha256_hex, sha256_text};
use crate::image_mode::{image_mode_as_cli_arg, mode_arg, ImageMode};
use crate::message::{is_random_id, new_event_id, text_view, Kind, Message, MessageView};
use crate::number::{decimal, print};
use crate::path::join_text;
use crate::paths::{in_dir, name_safe, safe_for_filename};
use vstd::prelude::*;

verus! {

/// The file that a running command of a room and a relay holds locked.
pub open spec fn lock_name(name: Seq<char>, room: Seq<char>, relay: Seq<char>) -> Seq<char> {
    name + "_room="@ + name_safe(room) + "_relay="@ + name_safe(relay) + ".lock"@
}

/// The file that a running command of a room and a relay holds locked.
pub fn lock_path(state_dir: &[u8], name: &str, room: &str, relay: &str) -> (res: Vec<u8>)
    ensures
        res@ == in_dir(state_dir@, lock_name(name@, room@, relay@)),
{
    let mut file = name.to_string();
    file.append("_room=");
    file.append(safe_for_filename(room).as_str());
    file.append("_relay=");
    file.append(safe_for_filename(relay).as_str());
    file.append(".lock");
    assert(file@ =~= lock_name(name@, room@, relay@));
    join_text(state_dir, file.as_str())
}

/// A device's id, and whether it is a new one, to be kept.
pub struct DeviceId {
    pub id: String,
    pub is_new: bool,
}

/// The device's id, given what the file with it holds, if there is one. Without an id in
/// it, there is a new one.
pub fn device_id_of(kept: Option<&str>) -> (res: DeviceId)
    ensures
        match opt_str(kept) {
            Some(file) => match last_sent(file) {
                Some(id) => res.id@ == id && !res.is_new,
                None => is_random_id(res.id@) && res.is_new,
            },
            None => is_random_id(res.id@) && res.is_new,
        },
{
    if let Some(file) = kept {
        if let Some(id) = read_last_sent(file) {
            return DeviceId { id, is_new: false };
        }
    }
    DeviceId { id: new_event_id(), is_new: true }
}

/// An id that was kept is the id from then on.
pub proof fn law_device_id_is_kept(id: Seq<char>)
    requires
        id.len() > 0,
        !crate::text::is_white(id[0]),
        !crate::text::is_white(id.last()),
    ensures
        last_sent(id) == Some(id),
{
    crate::text::lemma_trimmed(id);
}

/// What is said of a message on a line.
pub open spec fn listen_line(m: MessageView) -> Seq<char> {
    let sha = match m.sha256 {
        Some(s) => s,
        None => Seq::empty(),
    };
    let mime = match m.mime {
        Some(s) => s,
        None => Seq::empty(),
    };
    let tail = " mime="@ + mime + " bytes="@ + decimal(m.size as nat) + " sha256="@ + sha;
    "RECV from "@ + m.device_id + match m.kind {
        Kind::Text => " kind=Text text="@ + match m.payload {
            Some(p) => lossy(p),
            None => Seq::empty(),
        },
        Kind::Image => " kind=Image"@ + tail,
        Kind::File => " kind=File name="@ + match m.name {
            Some(s) => s,
            None => "(no-name)"@,
        } + tail,
        Kind::Join => " kind=Join"@,
    }
}

/// Adds an optional text.
fn append_opt(out: &mut String, s: &Option<String>)
    ensures
        final(out)@ == old(out)@ + match crate::wire::opt_text(*s) {
            Some(t) => t,
            None => Seq::empty(),
        },
{
    match s {
        Some(t) => out.append(t.as_str()),
        None => {
            assert(out@ + Seq::<char>::empty() =~= out@);
        },
    }
}

/// What is said of a message on a line.
pub fn listen_line_of(m: &Message) -> (res: String)
    ensures
        res@ == listen_line(m@),
{
    let mut tail = " mime=".to_string();
    append_opt(&mut tail, &m.mime);
    tail.append(" bytes=");
    tail.append(print(m.size as u128).as_str());
    tail.append(" sha256=");
    append_opt(&mut tail, &m.sha256);
    let mut out = "RECV from ".to_string();
    out.append(m.device_id.as_str());
    let ghost head = out@;
    match m.kind {
        Kind::Text => {
            out.append(" kind=Text text=");
            match &m.payload {
                Some(p) => out.append(lossy_text(p.as_slice()).as_str()),
                None => {},
            }
        },
        Kind::Image => {
            out.append(" kind=Image");
            out.append(tail.as_str());
        },
        Kind::File => {
            out.append(" kind=File name=");
            match &m.name {
                Some(n) => out.append(n.as_str()),
                None => out.append("(no-name)"),
            }
            out.append(tail.as_str());
        },
        Kind::Join => {
            out.append(" kind=Join");
        },
    }
    assert(out@ =~= listen_line(m@));
    out
}

/// A message with a text and its digest.
pub fn text_message(device_id: &str, room: &str, text: &str) -> (res: Message)
    ensures
        exists|id: Seq<char>, ts: u64|
            {
                &&& is_random_id(id)
                &&& res@ == (MessageView {
                    sha256: Some(sha256_text(vstd::utf8::encode_utf8(text@))),
                    ..(#[trigger] text_view(id, ts, device_id@, room@, text@))
                })
            },
{
    let mut m = Message::new_text(device_id, room, text);
    let ghost plain = m@;
    m.sha256 = Some(sha256_hex(text.as_bytes()));
    assert(plain == text_view(plain.event_id, plain.ts, device_id@, room@, text@));
    m
}

/// The settings that a watcher's hook reads from its environment.
pub struct HookSettings<'a> {
    pub candidate: &'a str,
    pub state_dir: &'a str,
    pub device_id: &'a str,
    pub room: &'a str,
    pub relay: &'a str,
    pub max_text_bytes: usize,
    pub max_image_bytes: usize,
    pub max_file_bytes: usize,
    pub debug_path: Option<&'a str>,
    pub image_mode: ImageMode,
}

/// A variable of the environment.
#[verifier::ext_equal]
pub struct VarView {
    pub name: Seq<char>,
    pub value: Seq<char>,
}

/// A variable of the environment.
#[derive(Debug)]
pub struct Var {
    pub name: &'static str,
    pub value: String,
}

impl View for Var {
    type V = VarView;

    open spec fn view(&self) -> VarView {
        VarView { name: self.name@, value: self.value@ }
    }
}

impl DeepView for Var {
    type V = VarView;

    open spec fn deep_view(&self) -> VarView {
        self@
    }
}

/// A variable with a value.
pub open spec fn var(name: Seq<char>, value: Seq<char>) -> VarView {
    VarView { name, value }
}

/// The environment of a watcher's hook.
pub open spec fn hook_env(s: HookSettings<'_>) -> Seq<VarView> {
    seq![
        var("MCR_WL_WATCH_HOOK"@, "1"@),
        var("MCR_WATCH_CANDIDATE_MIME"@, s.candidate@),
        var("MCR_STATE_DIR"@, s.state_dir@),
        var("MCR_DEVICE_ID"@, s.device_id@),
        var("MCR_ROOM"@, s.room@),
        var("MCR_RELAY"@, s.relay@),
        var("MCR_MAX_TEXT_BYTES"@, decimal(s.max_text_bytes as nat)),
        var("MCR_MAX_IMAGE_BYTES"@, decimal(s.max_image_bytes as nat)),
        var("MCR_MAX_FILE_BYTES"@, decimal(s.max_file_bytes as nat)),
        var("MCR_IMAGE_MODE"@, mode_arg(s.image_mode)),
    ] + match s.debug_path {
        Some(p) => seq![var("MCR_HOOK_DEBUG_PATH"@, p@)],
        None => Seq::empty(),
    }
}

fn make_var(name: &'static str, value: &str) -> (res: Var)
    ensures
        res@ == var(name@, value@),
{
    Var { name, value: value.to_string() }
}

/// The environment of a watcher's hook.
pub fn hook_env_of(s: &HookSettings<'_>) -> (res: Vec<Var>)
    ensures
        res.deep_view() == hook_env(*s),
{
    let mut out: Vec<Var> = Vec::new();
    out.push(make_var("MCR_WL_WATCH_HOOK", "1"));
    out.push(make_var("MCR_WATCH_CANDIDATE_MIME", s.candidate));
    out.push(make_var("MCR_STATE_DIR", s.state_dir));
    out.push(make_var("MCR_DEVICE_ID", s.device_id));
    out.push(make_var("MCR_ROOM", s.room));
    out.push(make_var("MCR_RELAY", s.relay));
    out.push(make_var("MCR_MAX_TEXT_BYTES", print(s.max_text_bytes as u128).as_str()));
    out.push(make_var("MCR_MAX_IMAGE_BYTES", print(s.max_image_bytes as u128).as_str()));
    out.push(make_var("MCR_MAX_FILE_BYTES", print(s.max_file_bytes as u128).as_str()));
    out.push(make_var("MCR_IMAGE_MODE", image_mode_as_cli_arg(s.image_mode)));
    if let Some(p) = s.debug_path {
        out.push(make_var("MCR_HOOK_DEBUG_PATH", p));
    }
    assert(out.deep_view() =~= hook_env(*s));
    out
}

/// A hook reads the limits and the image mode that it was handed.
pub proof fn law_hook_settings_survive(s: HookSettings<'_>, default: usize)
    ensures
        crate::watch::limit(Some(hook_env(s)[6].value), default) == s.max_text_bytes,
        crate::watch::limit(Some(hook_env(s)[7].value), default) == s.max_image_bytes,
        crate::watch::limit(Some(hook_env(s)[8].value), default) == s.max_file_bytes,
        crate::image_mode::mode_named(hook_env(s)[9].value) == Some(s.image_mode),
{
    crate::watch::law_limit_survives(s.max_text_bytes, default);
    crate::watch::law_limit_survives(s.max_image_bytes, default);
    crate::watch::law_limit_survives(s.max_file_bytes, default);
    crate::image_mode::law_arg_names_mode(s.image_mode);
}

/// The types whose changes are told to the sync between X11 and Wayland.
pub open spec fn x11_watched() -> Seq<Seq<char>> {
    seq![
        TEXT_MIME@,
        "text/plain"@,
        URI_LIST_MIME@,
        KDE_URI_LIST_MIME@,
        GNOME_COPIED_FILES_MIME@,
        "image/png"@,
        "image/jpeg"@,
        "image/webp"@,
        "image/gif"@,
    ]
}

/// The types whose changes are told to the sync between X11 and Wayland.
pub fn x11_watch_mimes() -> (res: Vec<&'static str>)
    ensures
        res@.len() == x11_watched().len(),
        forall|i: int| 0 <= i < res@.len() ==> (#[trigger] res@[i])@ == x11_watched()[i],
{
    let mut out: Vec<&'static str> = Vec::new();
    out.push(TEXT_MIME);
    out.push("text/plain");
    out.push(URI_LIST_MIME);
    out.push(KDE_URI_LIST_MIME);
    out.push(GNOME_COPIED_FILES_MIME);
    out.push("image/png");
    out.push("image/jpeg");
    out.push("image/webp");
    out.push("image/gif");
    out
}

/// A variable of the list has the value.
pub open spec fn sets(vars: Seq<VarView>, name: Seq<char>, value: Seq<char>) -> bool {
    exists|i: int| 0 <= i < vars.len() && (#[trigger] vars[i]).name == name && vars[i].value == value
}

/// A hook is told the type it stands for, where state is kept, which device it is, in which
/// room and by which relay, and where it writes what it does if that is asked for.
pub proof fn law_hook_is_told_where_it_stands(s: HookSettings<'_>)
    ensures
        sets(hook_env(s), "MCR_WL_WATCH_HOOK"@, "1"@),
        sets(hook_env(s), "MCR_WATCH_CANDIDATE_MIME"@, s.candidate@),
        sets(hook_env(s), "MCR_STATE_DIR"@, s.state_dir@),
        sets(hook_env(s), "MCR_DEVICE_ID"@, s.device_id@),
        sets(hook_env(s), "MCR_ROOM"@, s.room@),
        sets(hook_env(s), "MCR_RELAY"@, s.relay@),
        sets(hook_env(s), "MCR_MAX_TEXT_BYTES"@, decimal(s.max_text_bytes as nat)),
        sets(hook_env(s), "MCR_MAX_IMAGE_BYTES"@, decimal(s.max_image_bytes as nat)),
        sets(hook_env(s), "MCR_MAX_FILE_BYTES"@, decimal(s.max_file_bytes as nat)),
        sets(hook_env(s), "MCR_IMAGE_MODE"@, mode_arg(s.image_mode)),
        s.debug_path matches Some(p) ==> sets(hook_env(s), "MCR_HOOK_DEBUG_PATH"@, p@),
        s.debug_path is None ==> hook_env(s).len() == 10,
{
    let e = hook_env(s);
    assert(e[0] == var("MCR_WL_WATCH_HOOK"@, "1"@));
    assert(e[1] == var("MCR_WATCH_CANDIDATE_MIME"@, s.candidate@));
    assert(e[2] == var("MCR_STATE_DIR"@, s.state_dir@));
    assert(e[3] == var("MCR_DEVICE_ID"@, s.device_id@));
    assert(e[4] == var("MCR_ROOM"@, s.room@));
    assert(e[5] == var("MCR_RELAY"@, s.relay@));
    assert(e[6] == var("MCR_MAX_TEXT_BYTES"@, decimal(s.max_text_bytes as nat)));
    assert(e[7] == var("MCR_MAX_IMAGE_BYTES"@, decimal(s.max_image_bytes as nat)));
    assert(e[8] == var("MCR_MAX_FILE_BYTES"@, decimal(s.max_file_bytes as nat)));
    assert(e[9] == var("MCR_IMAGE_MODE"@, mode_arg(s.image_mode)));
    if let Some(p) = s.debug_path {
        assert(e[10] == var("MCR_HOOK_DEBUG_PATH"@, p@));
    }
}

/// The lock of a command lies in the directory for state under a name that starts with the
/// command's; commands of one room and relay have locks of their own, and so have rooms for
/// one command and relay.
pub proof fn law_locks_are_told_apart(
    name: Seq<char>,
    room: Seq<char>,
    relay: Seq<char>,
    other: Seq<char>,
)
    ensures
        name.is_prefix_of(lock_name(name, room, relay)),
        ".lock"@.is_suffix_of(lock_name(name, room, relay)),
        lock_name(name, room, relay) == lock_name(other, room, relay) ==> name == other,
        lock_name(name, room, relay) == lock_name(name, other, relay) ==> name_safe(room)
            == name_safe(other),
        lock_name(name, room, relay) == lock_name(name, room, other) ==> name_safe(relay)
            == name_safe(other),
{
    let l = lock_name(name, room, relay);
    let t = ".lock"@;
    assert(name =~= l.take(name.len() as int));
    assert(t =~= l.subrange(l.len() - t.len(), l.len() as int));
    let tail = "_room="@ + name_safe(room) + "_relay="@ + name_safe(relay) + t;
    let m = lock_name(other, room, relay);
    if l == m {
        assert(name.len() == other.len());
        assert(other =~= m.take(other.len() as int));
    }
    let r = lock_name(name, other, relay);
    if l == r {
        let h = name.len() + "_room="@.len();
        assert(name_safe(room).len() == name_safe(other).len());
        assert(l.subrange(h as int, (h + name_safe(room).len()) as int) =~= name_safe(room));
        assert(r.subrange(h as int, (h + name_safe(other).len()) as int) =~= name_safe(other));
    }
    let y = lock_name(name, room, other);
    if l == y {
        let h = name.len() + "_room="@.len() + name_safe(room).len() + "_relay="@.len();
        assert(name_safe(relay).len() == name_safe(other).len());
        assert(l.subrange(h as int, (h + name_safe(relay).len()) as int) =~= name_safe(relay));
        assert(y.subrange(h as int, (h + name_safe(other).len()) as int) =~= name_safe(other));
    }
}

/// What is said of a message names the device that it came from; of a text it gives the text,
/// of anything else its type, size and digest, and of a file its name.
pub proof fn law_what_is_said_of_a_message(m: MessageView)
    ensures
        ("RECV from "@ + m.device_id).is_prefix_of(listen_line(m)),
        m.kind == Kind::Text && m.payload is Some ==> lossy(m.payload->0).is_suffix_of(
            listen_line(m),
        ),
        m.kind == Kind::Image || m.kind == Kind::File ==> (m.sha256 matches Some(s) ==> (
        " bytes="@ + decimal(m.size as nat) + " sha256="@ + s).is_suffix_of(listen_line(m))),
        m.kind == Kind::File && m.name is Some ==> ("RECV from "@ + m.device_id + " kind=File name="@
            + m.name->0).is_prefix_of(listen_line(m)),
        m.kind == Kind::File && m.name is None ==> ("RECV from "@ + m.device_id + " kind=File name="@
            + "(no-name)"@).is_prefix_of(listen_line(m)),
        m.kind == Kind::Image && m.mime is Some ==> ("RECV from "@ + m.device_id + " kind=Image"@
            + " mime="@ + m.mime->0).is_prefix_of(listen_line(m)),
        m.kind == Kind::Join ==> listen_line(m) == "RECV from "@ + m.device_id + " kind=Join"@,
{
    let l = listen_line(m);
    let h = "RECV from "@ + m.device_id;
    assert(h =~= l.take(h.len() as int));
    if m.kind == Kind::Text && m.payload is Some {
        let t = lossy(m.payload->0);
        assert(t =~= l.subrange(l.len() - t.len(), l.len() as int));
    }
    if (m.kind == Kind::Image || m.kind == Kind::File) && m.sha256 is Some {
        let t = " bytes="@ + decimal(m.size as nat) + " sha256="@ + m.sha256->0;
        assert(t =~= l.subrange(l.len() - t.len(), l.len() as int));
    }
    if m.kind == Kind::File {
        let t = h + " kind=File name="@ + match m.name {
            Some(n) => n,
            None => "(no-name)"@,
        };
        assert(t =~= l.take(t.len() as int));
    }
    if m.kind == Kind::Image && m.mime is Some {
        let t = h + " kind=Image"@ + " mime="@ + m.mime->0;
        assert(t =~= l.take(t.len() as int));
    }
}

/// The sync with X11 is told of changes of text, of lists of files and of images, and of
/// nothing else.
pub proof fn law_what_x11_is_told_of(mime: Seq<char>)
    ensures
        x11_watched().contains(mime) <==> mime == "text/plain;charset=utf-8"@ || mime
            == "text/plain"@ || mime == "text/uri-list"@ || mime == "application/x-kde4-urilist"@
            || mime == "x-special/gnome-copied-files"@ || mime == "image/png"@ || mime
            == "image/jpeg"@ || mime == "image/webp"@ || mime == "image/gif"@,
{
    let w = x11_watched();
    assert(w[0] == "text/plain;charset=utf-8"@);
    assert(w[1] == "text/plain"@);
    assert(w[2] == "text/uri-list"@);
    assert(w[3] == "application/x-kde4-urilist"@);
    assert(w[4] == "x-special/gnome-copied-files"@);
    assert(w[5] == "image/png"@);
    assert(w[6] == "image/jpeg"@);
    assert(w[7] == "image/webp"@);
    assert(w[8] == "image/gif"@);
}

} // verus!
