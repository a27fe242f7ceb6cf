//! Programs that are started: where they are looked for, their arguments and their end.

use crate::number::{decimal, print};
use crate::text::{contains, has_text, trim, trimmed};
use vstd::prelude::*;

verus! {

/// A program runs from a build directory, where its companions stand beside it.
pub open spec fn is_build_place(exe: Seq<char>) -> bool {
    ||| has_text(exe, "/target/debug/"@)
    ||| has_text(exe, "/target/release/"@)
}

/// Whether a program runs from a build directory. Without a path in Unicode it does not.
pub fn is_dev_exe_location(exe: Option<&str>) -> (res: bool)
    ensures
        res == (exe is Some && is_build_place(exe->0@)),
{
    match exe {
        Some(s) => contains(s, "/target/debug/") || contains(s, "/target/release/"),
        None => false,
    }
}

/// Whether a program runs from a build directory, where paths may be written as on
/// Windows.
pub fn is_dev_exe_location_any(exe: Option<&str>) -> (res: bool)
    ensures
        res == (exe is Some && (is_build_place(exe->0@) || has_text(
            exe->0@,
            "\\target\\debug\\"@,
        ) || has_text(exe->0@, "\\target\\release\\"@))),
{
    match exe {
        Some(s) => is_dev_exe_location(exe) || contains(s, "\\target\\debug\\") || contains(
            s,
            "\\target\\release\\",
        ),
        None => false,
    }
}

/// A place where a program is looked for. The number is that of the program's name.
#[derive(Clone, Copy, Debug, PartialEq, Eq, Structural)]
pub enum Place {
    /// Beside the program that runs.
    Sibling(usize),
    /// On the search path.
    OnPath(usize),
    /// In `/usr/bin`.
    UsrBin(usize),
    /// In `/usr/local/bin`.
    UsrLocalBin(usize),
}

/// The places for the first names, one after the other.
pub open spec fn siblings(names: nat) -> Seq<Place> {
    Seq::new(names, |i: int| Place::Sibling(i as usize))
}

/// The places on the search path for the names, one after the other.
pub open spec fn on_path(names: nat) -> Seq<Place> {
    Seq::new(names, |i: int| Place::OnPath(i as usize))
}

/// All places for the names: for each name all that apply.
pub open spec fn all_places(names: nat) -> Seq<Place> {
    Seq::new(
        4 * names,
        |i: int|
            if i % 4 == 0 {
                Place::Sibling((i / 4) as usize)
            } else if i % 4 == 1 {
                Place::OnPath((i / 4) as usize)
            } else if i % 4 == 2 {
                Place::UsrBin((i / 4) as usize)
            } else {
                Place::UsrLocalBin((i / 4) as usize)
            },
    )
}

/// The installed places for the names, then the search path.
pub open spec fn installed_places(names: nat) -> Seq<Place> {
    Seq::new(
        2 * names,
        |i: int|
            if i % 2 == 0 {
                Place::UsrBin((i / 2) as usize)
            } else {
                Place::UsrLocalBin((i / 2) as usize)
            },
    ) + on_path(names)
}

/// All places for the names, in the order in which they are tried; the newest program
/// found is taken.
pub fn all_places_of(names: usize) -> (res: Vec<Place>)
    ensures
        res@ == all_places(names as nat),
{
    let mut out: Vec<Place> = Vec::new();
    let mut i: usize = 0;
    while i < names
        invariant
            i <= names,
            out@ == all_places(names as nat).take(4 * i),
        decreases names - i,
    {
        out.push(Place::Sibling(i));
        out.push(Place::OnPath(i));
        out.push(Place::UsrBin(i));
        out.push(Place::UsrLocalBin(i));
        assert(out@ =~= all_places(names as nat).take(4 * (i + 1)));
        i += 1;
    }
    assert(out@ =~= all_places(names as nat));
    out
}

/// The places for the names where an installed program is looked for; the first found is
/// taken.
pub fn installed_places_of(names: usize) -> (res: Vec<Place>)
    ensures
        res@ == installed_places(names as nat),
{
    let mut out: Vec<Place> = Vec::new();
    let mut i: usize = 0;
    while i < names
        invariant
            i <= names,
            out@ == installed_places(names as nat).take(2 * i),
        decreases names - i,
    {
        out.push(Place::UsrBin(i));
        out.push(Place::UsrLocalBin(i));
        assert(out@ =~= installed_places(names as nat).take(2 * (i + 1)));
        i += 1;
    }
    let mut j: usize = 0;
    while j < names
        invariant
            j <= names,
            out@ == installed_places(names as nat).take(2 * names + j),
        decreases names - j,
    {
        out.push(Place::OnPath(j));
        assert(out@ =~= installed_places(names as nat).take(2 * names + j + 1));
        j += 1;
    }
    assert(out@ =~= installed_places(names as nat));
    out
}

/// The places for the names where the tray looks for a program: beside it, then on the
/// search path; the first found is taken.
pub fn tray_places_of(names: usize) -> (res: Vec<Place>)
    ensures
        res@ == siblings(names as nat) + on_path(names as nat),
{
    let ghost want = siblings(names as nat) + on_path(names as nat);
    let mut out: Vec<Place> = Vec::new();
    let mut i: usize = 0;
    while i < names
        invariant
            i <= names,
            want == siblings(names as nat) + on_path(names as nat),
            out@ == want.take(i as int),
        decreases names - i,
    {
        out.push(Place::Sibling(i));
        assert(out@ =~= want.take(i + 1));
        i += 1;
    }
    let mut j: usize = 0;
    while j < names
        invariant
            j <= names,
            want == siblings(names as nat) + on_path(names as nat),
            out@ == want.take(names + j),
        decreases names - j,
    {
        out.push(Place::OnPath(j));
        assert(out@ =~= want.take(names + j + 1));
        j += 1;
    }
    assert(out@ =~= want);
    out
}

/// Where a program is taken from: the first of the places where it is found, in a build
/// directory beside the program that runs before all else. `None` means the first name as
/// it is.
pub open spec fn first_near(dev: bool, beside: Seq<bool>, path: Seq<bool>) -> Option<Place> {
    let b = first_true(beside);
    let p = first_true(path);
    if dev && b < beside.len() {
        Some(Place::Sibling(b as usize))
    } else if b < beside.len() && (b <= p || p >= path.len()) {
        Some(Place::Sibling(b as usize))
    } else if p < path.len() {
        Some(Place::OnPath(p as usize))
    } else {
        None
    }
}

/// The first position that is true; the length where none is.
pub open spec fn first_true(s: Seq<bool>) -> nat
    decreases s.len(),
{
    if s.len() == 0 || s[0] {
        0
    } else {
        1 + first_true(s.skip(1))
    }
}

fn first_true_of(v: &Vec<bool>) -> (res: usize)
    ensures
        res == first_true(v@),
        res <= v@.len(),
{
    let mut i: usize = 0;
    assert(v@.skip(0) =~= v@);
    while i < v.len() && !v[i]
        invariant
            i <= v@.len(),
            first_true(v@) == i + first_true(v@.skip(i as int)),
        decreases v@.len() - i,
    {
        assert(v@.skip(i as int)[0] == v@[i as int]);
        assert(v@.skip(i as int).skip(1) =~= v@.skip(i + 1));
        i += 1;
    }
    if i < v.len() {
        assert(v@.skip(i as int)[0] == v@[i as int]);
    }
    i
}

/// Where a program is taken from. `beside` and `path` tell for each name whether it is
/// found beside the program that runs and on the search path.
pub fn resolve_near(dev: bool, beside: &Vec<bool>, path: &Vec<bool>) -> (res: Option<Place>)
    requires
        beside@.len() == path@.len(),
    ensures
        res == first_near(dev, beside@, path@),
{
    let b = first_true_of(beside);
    let p = first_true_of(path);
    if dev && b < beside.len() {
        return Some(Place::Sibling(b));
    }
    if b < beside.len() && (b <= p || p >= path.len()) {
        return Some(Place::Sibling(b));
    }
    if p < path.len() {
        return Some(Place::OnPath(p));
    }
    None
}

/// A program is taken from the first place where it is found, if each name is looked for
/// beside the program that runs and then on the search path, one name after the other.
pub proof fn law_first_place_is_taken(beside: Seq<bool>, path: Seq<bool>)
    requires
        beside.len() == path.len(),
        beside.len() <= usize::MAX,
    ensures
        match first_near(false, beside, path) {
            Some(Place::Sibling(i)) => {
                &&& i < beside.len() && beside[i as int]
                &&& forall|j: int| 0 <= j < i ==> !#[trigger] beside[j] && !path[j]
            },
            Some(Place::OnPath(i)) => {
                &&& i < path.len() && path[i as int] && !beside[i as int]
                &&& forall|j: int| 0 <= j < i ==> !#[trigger] beside[j] && !path[j]
            },
            Some(_) => false,
            None => forall|j: int| 0 <= j < beside.len() ==> !#[trigger] beside[j] && !path[j],
        },
{
    lemma_first_true(beside);
    lemma_first_true(path);
}

proof fn lemma_first_true(s: Seq<bool>)
    ensures
        first_true(s) <= s.len(),
        first_true(s) < s.len() ==> s[first_true(s) as int],
        forall|j: int| 0 <= j < first_true(s) ==> !#[trigger] s[j],
    decreases s.len(),
{
    if s.len() > 0 && !s[0] {
        let t = s.skip(1);
        lemma_first_true(t);
        assert forall|j: int| 0 <= j < first_true(s) implies !#[trigger] s[j] by {
            if j > 0 {
                assert(s[j] == t[j - 1]);
            }
        }
        if first_true(s) < s.len() {
            assert(t[first_true(t) as int] == s[first_true(s) as int]);
        }
    }
}

/// The names of the control panel's program, the first one first.
pub open spec fn ui_egui_name_list() -> Seq<Seq<char>> {
    seq![
        "multicliprelay-ui-egui"@,
        "ui-egui"@,
        "multicliprelay-ui-egui.exe"@,
        "ui-egui.exe"@,
    ]
}

/// The names of the control panel's program, the first one first.
pub fn ui_egui_names() -> (res: Vec<&'static str>)
    ensures
        res@.len() == 4,
        forall|i: int| 0 <= i < 4 ==> (#[trigger] res@[i])@ == ui_egui_name_list()[i],
{
    let mut out: Vec<&'static str> = Vec::new();
    out.push("multicliprelay-ui-egui");
    out.push("ui-egui");
    out.push("multicliprelay-ui-egui.exe");
    out.push("ui-egui.exe");
    out
}

/// Where the control panel's program is taken from. `beside` and `path` tell for each of
/// its names whether it is found beside the program that runs and on the search path;
/// `None` means the first name as it is.
pub fn ui_egui_exe(dev: bool, beside: &Vec<bool>, path: &Vec<bool>) -> (res: Option<Place>)
    requires
        beside@.len() == ui_egui_name_list().len(),
        path@.len() == ui_egui_name_list().len(),
    ensures
        res == first_near(dev, beside@, path@),
{
    resolve_near(dev, beside, path)
}

/// The newest of the programs that were found: its number and its time. A time that cannot
/// be read counts only for the first, as that of the epoch.
pub open spec fn newest(times: Seq<Option<i128>>) -> Option<(nat, i128)>
    decreases times.len(),
{
    if times.len() == 0 {
        None
    } else {
        let before = newest(times.drop_last());
        let n = (times.len() - 1) as nat;
        match (before, times.last()) {
            (None, Some(t)) => Some((n, t)),
            (None, None) => Some((n, 0i128)),
            (Some(b), Some(t)) => if t > b.1 {
                Some((n, t))
            } else {
                before
            },
            (Some(_), None) => before,
        }
    }
}

/// The number of the newest of the programs that were found.
pub fn newest_of(times: &Vec<Option<i128>>) -> (res: Option<usize>)
    ensures
        match res {
            Some(i) => newest(times@) is Some && (newest(times@)->0).0 == i,
            None => newest(times@) is None,
        },
{
    let mut best: Option<(usize, i128)> = None;
    let mut i: usize = 0;
    assert(times@.take(0) =~= Seq::<Option<i128>>::empty());
    while i < times.len()
        invariant
            i <= times@.len(),
            match best {
                Some(b) => newest(times@.take(i as int)) == Some((b.0 as nat, b.1)),
                None => newest(times@.take(i as int)) is None,
            },
        decreases times@.len() - i,
    {
        let ghost next = times@.take(i + 1);
        assert(next.drop_last() =~= times@.take(i as int));
        assert(next.last() == times@[i as int]);
        match times[i] {
            Some(t) => match best {
                None => {
                    best = Some((i, t));
                },
                Some(b) => if t > b.1 {
                    best = Some((i, t));
                },
            },
            None => if best.is_none() {
                best = Some((i, 0i128));
            },
        }
        i += 1;
    }
    assert(times@.take(i as int) =~= times@);
    match best {
        Some(b) => Some(b.0),
        None => None,
    }
}

/// A time, zero where it cannot be read.
pub open spec fn time_or_zero(t: Option<i128>) -> i128 {
    match t {
        Some(t) => t,
        None => 0,
    }
}

/// The newest program is one that was found, none is newer, and none before it is as new.
/// Times before the epoch are left out.
pub proof fn law_newest_is_newest(times: Seq<Option<i128>>)
    requires
        times.len() > 0,
        forall|i: int| 0 <= i < times.len() ==> time_or_zero(#[trigger] times[i]) >= 0,
    ensures
        newest(times) is Some,
        ({
            let n = newest(times)->0;
            &&& n.0 < times.len()
            &&& time_or_zero(times[n.0 as int]) == n.1
            &&& forall|i: int| 0 <= i < times.len() ==> time_or_zero(#[trigger] times[i]) <= n.1
            &&& forall|i: int| 0 <= i < n.0 ==> time_or_zero(#[trigger] times[i]) < n.1
        }),
    decreases times.len(),
{
    let before = times.drop_last();
    if before.len() > 0 {
        assert forall|i: int| 0 <= i < before.len() implies time_or_zero(#[trigger] before[i])
            >= 0 by {
            assert(before[i] == times[i]);
        }
        law_newest_is_newest(before);
        let n = newest(before)->0;
        assert(before[n.0 as int] == times[n.0 as int]);
        assert forall|i: int| 0 <= i < times.len() - 1 implies time_or_zero(#[trigger] times[i])
            <= n.1 by {
            assert(before[i] == times[i]);
        }
        assert forall|i: int| 0 <= i < n.0 implies time_or_zero(#[trigger] times[i]) < n.1 by {
            assert(before[i] == times[i]);
        }
    }
}

/// The arguments of a relay that listens at an address: none where it is blank.
pub open spec fn relay_args(bind: Option<Seq<char>>) -> Seq<Seq<char>> {
    match bind {
        Some(b) => if trimmed(b).len() > 0 {
            seq!["--bind"@, trimmed(b)]
        } else {
            Seq::empty()
        },
        None => Seq::empty(),
    }
}

/// The arguments of a relay that listens at an address.
pub fn relay_args_of(bind: Option<&str>) -> (res: Vec<String>)
    ensures
        res.deep_view() == relay_args(crate::apply::opt_str(bind)),
{
    let mut out: Vec<String> = Vec::new();
    if let Some(b) = bind {
        let t = trim(b);
        if !t.is_empty() {
            out.push("--bind".to_string());
            out.push(t.to_string());
        }
    }
    assert(out.deep_view() =~= relay_args(crate::apply::opt_str(bind)));
    out
}

/// Arguments as they are given.
fn args(parts: &[&str]) -> (res: Vec<String>)
    ensures
        res@.len() == parts@.len(),
        forall|i: int| 0 <= i < res@.len() ==> (#[trigger] res@[i])@ == parts@[i]@,
{
    let mut out: Vec<String> = Vec::new();
    let mut i: usize = 0;
    while i < parts.len()
        invariant
            i <= parts@.len(),
            out@.len() == i,
            forall|j: int| 0 <= j < i ==> (#[trigger] out@[j])@ == parts@[j]@,
        decreases parts@.len() - i,
    {
        out.push(parts[i].to_string());
        i += 1;
    }
    out
}

/// What a node is started with.
pub struct NodeSettings<'a> {
    pub room: &'a str,
    pub relay: &'a str,
    pub max_text_bytes: usize,
    pub max_image_bytes: usize,
    pub max_file_bytes: usize,
    pub image_mode: &'a str,
    pub x11_poll_interval_ms: u64,
}

/// The arguments of a node that watches the Wayland clipboard.
pub open spec fn watch_args(s: NodeSettings<'_>) -> Seq<Seq<char>> {
    seq![
        "wl-watch"@,
        "--room"@,
        s.room@,
        "--relay"@,
        s.relay@,
        "--mode"@,
        "watch"@,
        "--max-text-bytes"@,
        decimal(s.max_text_bytes as nat),
        "--max-image-bytes"@,
        decimal(s.max_image_bytes as nat),
        "--max-file-bytes"@,
        decimal(s.max_file_bytes as nat),
        "--image-mode"@,
        s.image_mode@,
    ]
}

/// The arguments of a node that watches the Wayland clipboard.
pub fn watch_args_of(s: &NodeSettings<'_>) -> (res: Vec<String>)
    ensures
        res.deep_view() == watch_args(*s),
{
    let text = print(s.max_text_bytes as u128);
    let image = print(s.max_image_bytes as u128);
    let file = print(s.max_file_bytes as u128);
    let out = args(
        &[
            "wl-watch",
            "--room",
            s.room,
            "--relay",
            s.relay,
            "--mode",
            "watch",
            "--max-text-bytes",
            text.as_str(),
            "--max-image-bytes",
            image.as_str(),
            "--max-file-bytes",
            file.as_str(),
            "--image-mode",
            s.image_mode,
        ],
    );
    assert(out.deep_view() =~= watch_args(*s));
    out
}

/// The arguments of a node that applies messages to the Wayland clipboard.
pub open spec fn apply_args(s: NodeSettings<'_>) -> Seq<Seq<char>> {
    seq!["wl-apply"@, "--room"@, s.room@, "--relay"@, s.relay@, "--image-mode"@, s.image_mode@]
}

/// The arguments of a node that applies messages to the Wayland clipboard.
pub fn apply_args_of(s: &NodeSettings<'_>) -> (res: Vec<String>)
    ensures
        res.deep_view() == apply_args(*s),
{
    let out = args(
        &["wl-apply", "--room", s.room, "--relay", s.relay, "--image-mode", s.image_mode],
    );
    assert(out.deep_view() =~= apply_args(*s));
    out
}

/// The arguments of a node that keeps X11 and Wayland in step.
pub open spec fn x11_args(s: NodeSettings<'_>) -> Seq<Seq<char>> {
    seq![
        "x11-sync"@,
        "--x11-poll-interval-ms"@,
        decimal(s.x11_poll_interval_ms as nat),
        "--max-text-bytes"@,
        decimal(s.max_text_bytes as nat),
        "--max-image-bytes"@,
        decimal(s.max_image_bytes as nat),
    ]
}

/// The arguments of a node that keeps X11 and Wayland in step.
pub fn x11_args_of(s: &NodeSettings<'_>) -> (res: Vec<String>)
    ensures
        res.deep_view() == x11_args(*s),
{
    let poll = print(s.x11_poll_interval_ms as u128);
    let text = print(s.max_text_bytes as u128);
    let image = print(s.max_image_bytes as u128);
    let out = args(
        &[
            "x11-sync",
            "--x11-poll-interval-ms",
            poll.as_str(),
            "--max-text-bytes",
            text.as_str(),
            "--max-image-bytes",
            image.as_str(),
        ],
    );
    assert(out.deep_view() =~= x11_args(*s));
    out
}

/// The arguments of a node that watches the Windows clipboard.
pub open spec fn win_watch_args(s: NodeSettings<'_>) -> Seq<Seq<char>> {
    seq![
        "win-watch"@,
        "--room"@,
        s.room@,
        "--relay"@,
        s.relay@,
        "--max-text-bytes"@,
        decimal(s.max_text_bytes as nat),
        "--max-image-bytes"@,
        decimal(s.max_image_bytes as nat),
        "--max-file-bytes"@,
        decimal(s.max_file_bytes as nat),
    ]
}

/// The arguments of a node that watches the Windows clipboard.
pub fn win_watch_args_of(s: &NodeSettings<'_>) -> (res: Vec<String>)
    ensures
        res.deep_view() == win_watch_args(*s),
{
    let text = print(s.max_text_bytes as u128);
    let image = print(s.max_image_bytes as u128);
    let file = print(s.max_file_bytes as u128);
    let out = args(
        &[
            "win-watch",
            "--room",
            s.room,
            "--relay",
            s.relay,
            "--max-text-bytes",
            text.as_str(),
            "--max-image-bytes",
            image.as_str(),
            "--max-file-bytes",
            file.as_str(),
        ],
    );
    assert(out.deep_view() =~= win_watch_args(*s));
    out
}

/// The arguments of a node that applies messages to the Windows clipboard.
pub open spec fn win_apply_args(s: NodeSettings<'_>) -> Seq<Seq<char>> {
    seq!["win-apply"@, "--room"@, s.room@, "--relay"@, s.relay@]
}

/// The arguments of a node that applies messages to the Windows clipboard.
pub fn win_apply_args_of(s: &NodeSettings<'_>) -> (res: Vec<String>)
    ensures
        res.deep_view() == win_apply_args(*s),
{
    let out = args(&["win-apply", "--room", s.room, "--relay", s.relay]);
    assert(out.deep_view() =~= win_apply_args(*s));
    out
}

/// The arguments of a node that sends a text, in another device's name.
pub open spec fn send_text_args(
    device: Seq<char>,
    room: Seq<char>,
    relay: Seq<char>,
    text: Seq<char>,
) -> Seq<Seq<char>> {
    seq![
        "--device-id"@,
        device,
        "send-text"@,
        "--room"@,
        room,
        "--relay"@,
        relay,
        "--text"@,
        text,
    ]
}

/// The arguments of a node that sends a text, in another device's name: a node ignores
/// what its own device sent.
pub fn send_text_args_of(device: &str, room: &str, relay: &str, text: &str) -> (res: Vec<String>)
    ensures
        res.deep_view() == send_text_args(device@, room@, relay@, text@),
{
    let out = args(
        &["--device-id", device, "send-text", "--room", room, "--relay", relay, "--text", text],
    );
    assert(out.deep_view() =~= send_text_args(device@, room@, relay@, text@));
    out
}

/// The arguments of a node that sends an image, in another device's name.
pub open spec fn send_image_args(
    device: Seq<char>,
    room: Seq<char>,
    relay: Seq<char>,
    file: Seq<char>,
    max_bytes: usize,
    image_mode: Seq<char>,
) -> Seq<Seq<char>> {
    seq![
        "--device-id"@,
        device,
        "send-image"@,
        "--room"@,
        room,
        "--relay"@,
        relay,
        "--file"@,
        file,
        "--max-bytes"@,
        decimal(max_bytes as nat),
        "--image-mode"@,
        image_mode,
    ]
}

/// The arguments of a node that sends an image, in another device's name.
pub fn send_image_args_of(
    device: &str,
    room: &str,
    relay: &str,
    file: &str,
    max_bytes: usize,
    image_mode: &str,
) -> (res: Vec<String>)
    ensures
        res.deep_view() == send_image_args(
            device@,
            room@,
            relay@,
            file@,
            max_bytes,
            image_mode@,
        ),
{
    let max = print(max_bytes as u128);
    let out = args(
        &[
            "--device-id",
            device,
            "send-image",
            "--room",
            room,
            "--relay",
            relay,
            "--file",
            file,
            "--max-bytes",
            max.as_str(),
            "--image-mode",
            image_mode,
        ],
    );
    assert(out.deep_view() =~= send_image_args(
        device@,
        room@,
        relay@,
        file@,
        max_bytes,
        image_mode@,
    ));
    out
}

/// The arguments of a node that sends a file, in another device's name.
pub open spec fn send_file_args(
    device: Seq<char>,
    room: Seq<char>,
    relay: Seq<char>,
    file: Seq<char>,
    max_bytes: usize,
) -> Seq<Seq<char>> {
    seq![
        "--device-id"@,
        device,
        "send-file"@,
        "--room"@,
        room,
        "--relay"@,
        relay,
        "--file"@,
        file,
        "--max-file-bytes"@,
        decimal(max_bytes as nat),
    ]
}

/// The arguments of a node that sends a file, in another device's name.
pub fn send_file_args_of(device: &str, room: &str, relay: &str, file: &str, max_bytes: usize) -> (res:
    Vec<String>)
    ensures
        res.deep_view() == send_file_args(device@, room@, relay@, file@, max_bytes),
{
    let max = print(max_bytes as u128);
    let out = args(
        &[
            "--device-id",
            device,
            "send-file",
            "--room",
            room,
            "--relay",
            relay,
            "--file",
            file,
            "--max-file-bytes",
            max.as_str(),
        ],
    );
    assert(out.deep_view() =~= send_file_args(device@, room@, relay@, file@, max_bytes));
    out
}

/// What a look at a program that was asked to end shows.
#[derive(Clone, Copy, Debug, PartialEq, Eq, Structural)]
pub enum Looked {
    Ended,
    Runs,
    /// It cannot be looked at.
    Failed,
}

/// What is done with a program that was asked to end.
#[derive(Clone, Copy, Debug, PartialEq, Eq, Structural)]
pub enum Ending {
    /// It is gone.
    Gone,
    /// It is looked at again in a moment.
    LookAgain,
    /// It is ended by force.
    Kill,
    /// It is left alone.
    LeaveAlone,
}

/// What is done with a program, a while after it was asked to end: past the time that it
/// has, it is ended by force.
pub fn ending_of(looked: Looked, elapsed_ms: u64, limit_ms: u64) -> (res: Ending)
    ensures
        res == match looked {
            Looked::Ended => Ending::Gone,
            Looked::Failed => Ending::LeaveAlone,
            Looked::Runs => if elapsed_ms >= limit_ms {
                Ending::Kill
            } else {
                Ending::LookAgain
            },
        },
{
    match looked {
        Looked::Ended => Ending::Gone,
        Looked::Failed => Ending::LeaveAlone,
        Looked::Runs => if elapsed_ms >= limit_ms {
            Ending::Kill
        } else {
            Ending::LookAgain
        },
    }
}

/// A line that a program printed, with where it came from.
pub fn tagged_line(tag: &str, stream: &str, line: &str) -> (res: String)
    ensures
        res@ == "["@ + tag@ + ":"@ + stream@ + "] "@ + line@,
{
    let mut out = "[".to_string();
    out.append(tag);
    out.append(":");
    out.append(stream);
    out.append("] ");
    out.append(line);
    out
}

/// The arguments give a value for an option: it follows the option's name.
pub open spec fn gives(args: Seq<Seq<char>>, option: Seq<char>, value: Seq<char>) -> bool {
    exists|i: int| 0 <= i < args.len() - 1 && #[trigger] args[i] == option && args[i + 1] == value
}

/// A node that watches the clipboard is told the room, the relay, the limits and the image
/// mode that are set.
pub proof fn law_watching_node_is_told_the_settings(s: NodeSettings<'_>)
    ensures
        watch_args(s)[0] == "wl-watch"@,
        gives(watch_args(s), "--room"@, s.room@),
        gives(watch_args(s), "--relay"@, s.relay@),
        gives(watch_args(s), "--max-text-bytes"@, decimal(s.max_text_bytes as nat)),
        gives(watch_args(s), "--max-image-bytes"@, decimal(s.max_image_bytes as nat)),
        gives(watch_args(s), "--max-file-bytes"@, decimal(s.max_file_bytes as nat)),
        gives(watch_args(s), "--image-mode"@, s.image_mode@),
        win_watch_args(s)[0] == "win-watch"@,
        gives(win_watch_args(s), "--room"@, s.room@),
        gives(win_watch_args(s), "--relay"@, s.relay@),
        gives(win_watch_args(s), "--max-text-bytes"@, decimal(s.max_text_bytes as nat)),
        gives(win_watch_args(s), "--max-image-bytes"@, decimal(s.max_image_bytes as nat)),
        gives(win_watch_args(s), "--max-file-bytes"@, decimal(s.max_file_bytes as nat)),
{
    let w = watch_args(s);
    assert(w[1] == "--room"@ && w[3] == "--relay"@ && w[7] == "--max-text-bytes"@ && w[9]
        == "--max-image-bytes"@ && w[11] == "--max-file-bytes"@ && w[13] == "--image-mode"@);
    let v = win_watch_args(s);
    assert(v[1] == "--room"@ && v[3] == "--relay"@ && v[5] == "--max-text-bytes"@ && v[7]
        == "--max-image-bytes"@ && v[9] == "--max-file-bytes"@);
}

/// A node that puts messages on the clipboard is told the room and the relay, and on Wayland
/// the image mode.
pub proof fn law_applying_node_is_told_the_settings(s: NodeSettings<'_>)
    ensures
        apply_args(s)[0] == "wl-apply"@,
        gives(apply_args(s), "--room"@, s.room@),
        gives(apply_args(s), "--relay"@, s.relay@),
        gives(apply_args(s), "--image-mode"@, s.image_mode@),
        win_apply_args(s)[0] == "win-apply"@,
        gives(win_apply_args(s), "--room"@, s.room@),
        gives(win_apply_args(s), "--relay"@, s.relay@),
{
    let a = apply_args(s);
    assert(a[1] == "--room"@ && a[3] == "--relay"@ && a[5] == "--image-mode"@);
    let v = win_apply_args(s);
    assert(v[1] == "--room"@ && v[3] == "--relay"@);
}

/// A node that keeps X11 in step is told how often to look and the limits.
pub proof fn law_x11_node_is_told_the_settings(s: NodeSettings<'_>)
    ensures
        x11_args(s)[0] == "x11-sync"@,
        gives(x11_args(s), "--x11-poll-interval-ms"@, decimal(s.x11_poll_interval_ms as nat)),
        gives(x11_args(s), "--max-text-bytes"@, decimal(s.max_text_bytes as nat)),
        gives(x11_args(s), "--max-image-bytes"@, decimal(s.max_image_bytes as nat)),
{
    let x = x11_args(s);
    assert(x[1] == "--x11-poll-interval-ms"@ && x[3] == "--max-text-bytes"@ && x[5]
        == "--max-image-bytes"@);
}

/// A node that sends is told what to send, in whose name, to which room and by which relay.
pub proof fn law_sending_node_is_told_what_to_send(
    device: Seq<char>,
    room: Seq<char>,
    relay: Seq<char>,
    what: Seq<char>,
    max: usize,
    mode: Seq<char>,
)
    ensures
        ({
            let t = send_text_args(device, room, relay, what);
            let i = send_image_args(device, room, relay, what, max, mode);
            let f = send_file_args(device, room, relay, what, max);
            &&& gives(t, "--device-id"@, device) && gives(t, "--room"@, room) && gives(
                t,
                "--relay"@,
                relay,
            ) && gives(t, "--text"@, what) && t[2] == "send-text"@
            &&& gives(i, "--device-id"@, device) && gives(i, "--room"@, room) && gives(
                i,
                "--relay"@,
                relay,
            ) && gives(i, "--file"@, what) && i[2] == "send-image"@ && gives(
                i,
                "--max-bytes"@,
                decimal(max as nat),
            ) && gives(i, "--image-mode"@, mode)
            &&& gives(f, "--device-id"@, device) && gives(f, "--room"@, room) && gives(
                f,
                "--relay"@,
                relay,
            ) && gives(f, "--file"@, what) && f[2] == "send-file"@ && gives(
                f,
                "--max-file-bytes"@,
                decimal(max as nat),
            )
        }),
{
    let t = send_text_args(device, room, relay, what);
    let i = send_image_args(device, room, relay, what, max, mode);
    let f = send_file_args(device, room, relay, what, max);
    assert(t[0] == "--device-id"@ && t[3] == "--room"@ && t[5] == "--relay"@ && t[7] == "--text"@);
    assert(i[0] == "--device-id"@ && i[3] == "--room"@ && i[5] == "--relay"@ && i[7] == "--file"@
        && i[9] == "--max-bytes"@ && i[11] == "--image-mode"@);
    assert(f[0] == "--device-id"@ && f[3] == "--room"@ && f[5] == "--relay"@ && f[7] == "--file"@
        && f[9] == "--max-file-bytes"@);
}

/// A relay is told where to listen where that is not blank.
pub proof fn law_relay_is_told_where_to_listen(bind: Seq<char>)
    ensures
        trimmed(bind).len() > 0 ==> gives(relay_args(Some(bind)), "--bind"@, trimmed(bind)),
        trimmed(bind).len() == 0 ==> relay_args(Some(bind)).len() == 0,
        relay_args(None).len() == 0,
{
    if trimmed(bind).len() > 0 {
        let a = relay_args(Some(bind));
        assert(a[0] == "--bind"@);
        assert(a[1] == trimmed(bind));
    }
}

/// Every name is looked for in every place: beside the program that runs, on the search path,
/// and in the two directories for programs.
pub proof fn law_every_place_is_looked_at(names: nat, i: nat)
    requires
        i < names <= usize::MAX / 4,
    ensures
        all_places(names).contains(Place::Sibling(i as usize)),
        all_places(names).contains(Place::OnPath(i as usize)),
        all_places(names).contains(Place::UsrBin(i as usize)),
        all_places(names).contains(Place::UsrLocalBin(i as usize)),
        installed_places(names).contains(Place::UsrBin(i as usize)),
        installed_places(names).contains(Place::UsrLocalBin(i as usize)),
        installed_places(names).contains(Place::OnPath(i as usize)),
        siblings(names).contains(Place::Sibling(i as usize)),
        on_path(names).contains(Place::OnPath(i as usize)),
{
    let a = all_places(names);
    assert((4 * i) / 4 == i && (4 * i) % 4 == 0);
    assert((4 * i + 1) / 4 == i && (4 * i + 1) % 4 == 1);
    assert((4 * i + 2) / 4 == i && (4 * i + 2) % 4 == 2);
    assert((4 * i + 3) / 4 == i && (4 * i + 3) % 4 == 3);
    assert(a[4 * i as int] == Place::Sibling(i as usize));
    assert(a[4 * i as int + 1] == Place::OnPath(i as usize));
    assert(a[4 * i as int + 2] == Place::UsrBin(i as usize));
    assert(a[4 * i as int + 3] == Place::UsrLocalBin(i as usize));
    let p = installed_places(names);
    assert((2 * i) / 2 == i && (2 * i) % 2 == 0);
    assert((2 * i + 1) / 2 == i && (2 * i + 1) % 2 == 1);
    assert(p[2 * i as int] == Place::UsrBin(i as usize));
    assert(p[2 * i as int + 1] == Place::UsrLocalBin(i as usize));
    assert(p[2 * names as int + i] == Place::OnPath(i as usize));
    assert(siblings(names)[i as int] == Place::Sibling(i as usize));
    assert(on_path(names)[i as int] == Place::OnPath(i as usize));
}

/// From a build directory, what lies beside the program comes before the search path.
pub proof fn law_built_programs_come_first(beside: Seq<bool>, path: Seq<bool>, i: int)
    requires
        0 <= i < beside.len() <= usize::MAX,
        beside[i],
    ensures
        first_near(true, beside, path) matches Some(Place::Sibling(k)) && k <= i && beside[k as int],
{
    lemma_first_true(beside);
}

/// A program runs from a build directory where its path holds one of the two.
pub proof fn law_which_programs_are_being_built(a: Seq<char>, b: Seq<char>)
    ensures
        is_build_place(a + "/target/debug/"@ + b),
        is_build_place(a + "/target/release/"@ + b),
{
    let x = a + "/target/debug/"@ + b;
    let n = a.len() as int;
    assert(x.subrange(n, n + "/target/debug/"@.len()) =~= "/target/debug/"@);
    let y = a + "/target/release/"@ + b;
    assert(y.subrange(n, n + "/target/release/"@.len()) =~= "/target/release/"@);
}

} // verus!
