//! Services under systemd: the units, their environment and the repair of their files.

use crate::config::{bind_hint, UiConfig};
use crate::number::{decimal, print};
use crate::path::{join_text, last_name_text, last_name_text_of};
use crate::paths::in_dir;
use crate::text::{
    chars_of, is_white, join, joined, lines, lines_of, same, starts_with, text_of, trim,
    trim_start, trimmed, trimmed_start, white,
};
use crate::wire::opt_text;
use vstd::prelude::*;

verus! {

pub const UNIT_RELAY: &'static str = "multicliprelay-relay.service";

pub const UNIT_WL_WATCH: &'static str = "multicliprelay-wl-watch.service";

pub const UNIT_WL_APPLY: &'static str = "multicliprelay-wl-apply.service";

pub const UNIT_X11_SYNC: &'static str = "multicliprelay-x11-sync.service";

/// Which services run.
#[derive(Debug, Copy, Clone, PartialEq, Eq, Structural, Default)]
pub struct ServiceStatus {
    pub relay: bool,
    pub watch: bool,
    pub apply: bool,
    pub x11: bool,
}

/// Which services run, given what systemd says of each unit.
pub fn status_snapshot(relay: bool, watch: bool, apply: bool, x11: bool) -> (res: ServiceStatus)
    ensures
        res == (ServiceStatus { relay, watch, apply, x11 }),
{
    ServiceStatus { relay, watch, apply, x11 }
}

/// Whether the panel uses systemd: as the environment says, else where it is available.
pub fn enabled_from_env_or_auto(set: Option<&str>, available: bool) -> (res: bool)
    ensures
        res == if set is Some && set->0@ == "1"@ {
            true
        } else if set is Some && set->0@ == "0"@ {
            false
        } else {
            available
        },
{
    match set {
        Some(s) => if same(s, "1") {
            true
        } else if same(s, "0") {
            false
        } else {
            available
        },
        None => available,
    }
}

/// Whether the tray uses systemd: not where the environment says so, else where it is
/// available.
pub fn tray_uses_systemd(set: Option<&str>, available: bool) -> (res: bool)
    ensures
        res == (!(set is Some && set->0@ == "0"@) && available),
{
    match set {
        Some(s) => !same(s, "0") && available,
        None => available,
    }
}

/// What the services' environment is made from.
pub struct EnvSource<'a> {
    pub relay_addr: &'a str,
    pub room: &'a str,
    pub max_text_bytes: usize,
    pub max_image_bytes: usize,
    pub max_file_bytes: usize,
    pub image_mode: &'a str,
    pub x11_poll_interval_ms: u64,
    /// A room or an image mode that is blank is set to nothing, rather than left out.
    pub sets_blank: bool,
}

/// The line that sets a variable, or none where the value is empty.
pub open spec fn set_line(name: Seq<char>, value: Seq<char>) -> Seq<Seq<char>> {
    if value.len() > 0 {
        seq![name + value]
    } else {
        Seq::empty()
    }
}

/// The line that sets a variable, or none where the value is empty and is not to be set so.
pub open spec fn set_line_or_blank(name: Seq<char>, value: Seq<char>, blank: bool) -> Seq<
    Seq<char>,
> {
    if blank {
        seq![name + value]
    } else {
        set_line(name, value)
    }
}

/// The lines of the services' environment. Without an address there is no line for it, so
/// that the unit's own stays.
pub open spec fn env_lines(s: EnvSource<'_>) -> Seq<Seq<char>> {
    set_line("MULTICLIPRELAY_RELAY="@, trimmed(s.relay_addr@)) + (match bind_hint(s.relay_addr@) {
        Some(b) => seq!["MULTICLIPRELAY_BIND="@ + b],
        None => Seq::empty(),
    }) + set_line_or_blank("MULTICLIPRELAY_ROOM="@, trimmed(s.room@), s.sets_blank) + limit_lines(s)
        + set_line_or_blank("MULTICLIPRELAY_IMAGE_MODE="@, trimmed(s.image_mode@), s.sets_blank)
        + interval_lines(s)
}

/// The lines for the largest content of each kind.
pub open spec fn limit_lines(s: EnvSource<'_>) -> Seq<Seq<char>> {
    seq![
        "MULTICLIPRELAY_MAX_TEXT_BYTES="@ + decimal(s.max_text_bytes as nat),
        "MULTICLIPRELAY_MAX_IMAGE_BYTES="@ + decimal(s.max_image_bytes as nat),
        "MULTICLIPRELAY_MAX_FILE_BYTES="@ + decimal(s.max_file_bytes as nat),
    ]
}

/// The lines for how the clipboards are watched.
pub open spec fn interval_lines(s: EnvSource<'_>) -> Seq<Seq<char>> {
    seq![
        "MULTICLIPRELAY_WATCH_MODE=watch"@,
        "MULTICLIPRELAY_POLL_INTERVAL_MS=200"@,
        "MULTICLIPRELAY_X11_POLL_INTERVAL_MS="@ + decimal(s.x11_poll_interval_ms as nat),
    ]
}

/// A line that sets a variable to an empty value: nothing follows the first equals sign.
pub open spec fn sets_nothing(line: Seq<char>) -> bool {
    line.len() > 0 && line.last() == '=' && !line.drop_last().contains('=')
}

proof fn lemma_sets_value(name: Seq<char>, value: Seq<char>)
    requires
        name.len() > 0,
        name.last() == '=',
        value.len() > 0,
    ensures
        !sets_nothing(name + value),
{
    let line = name + value;
    assert(line.drop_last()[name.len() - 1] == '=');
}

/// The services' environment sets no variable to an empty value, where blank ones are left
/// out.
pub proof fn law_no_variable_is_set_to_nothing(s: EnvSource<'_>, i: int)
    requires
        !s.sets_blank,
        0 <= i < env_lines(s).len(),
    ensures
        !sets_nothing(env_lines(s)[i]),
{
    reveal_strlit("MULTICLIPRELAY_RELAY=");
    reveal_strlit("MULTICLIPRELAY_BIND=");
    reveal_strlit("MULTICLIPRELAY_ROOM=");
    reveal_strlit("MULTICLIPRELAY_MAX_TEXT_BYTES=");
    reveal_strlit("MULTICLIPRELAY_MAX_IMAGE_BYTES=");
    reveal_strlit("MULTICLIPRELAY_MAX_FILE_BYTES=");
    reveal_strlit("MULTICLIPRELAY_IMAGE_MODE=");
    reveal_strlit("MULTICLIPRELAY_WATCH_MODE=watch");
    reveal_strlit("MULTICLIPRELAY_POLL_INTERVAL_MS=200");
    reveal_strlit("MULTICLIPRELAY_X11_POLL_INTERVAL_MS=");
    let relay = trimmed(s.relay_addr@);
    let room = trimmed(s.room@);
    let mode = trimmed(s.image_mode@);
    if relay.len() > 0 {
        lemma_sets_value("MULTICLIPRELAY_RELAY="@, relay);
    }
    if bind_hint(s.relay_addr@) is Some {
        crate::config::lemma_bind_hint(s.relay_addr@);
        lemma_sets_value("MULTICLIPRELAY_BIND="@, bind_hint(s.relay_addr@)->0);
    }
    if room.len() > 0 {
        lemma_sets_value("MULTICLIPRELAY_ROOM="@, room);
    }
    if mode.len() > 0 {
        lemma_sets_value("MULTICLIPRELAY_IMAGE_MODE="@, mode);
    }
    crate::number::lemma_decimal(s.max_text_bytes as nat);
    crate::number::lemma_decimal(s.max_image_bytes as nat);
    crate::number::lemma_decimal(s.max_file_bytes as nat);
    crate::number::lemma_decimal(s.x11_poll_interval_ms as nat);
    lemma_sets_value("MULTICLIPRELAY_MAX_TEXT_BYTES="@, decimal(s.max_text_bytes as nat));
    lemma_sets_value("MULTICLIPRELAY_MAX_IMAGE_BYTES="@, decimal(s.max_image_bytes as nat));
    lemma_sets_value("MULTICLIPRELAY_MAX_FILE_BYTES="@, decimal(s.max_file_bytes as nat));
    lemma_sets_value("MULTICLIPRELAY_X11_POLL_INTERVAL_MS="@, decimal(s.x11_poll_interval_ms as nat));
}

/// A line that sets a variable.
fn setting(name: &str, value: &str) -> (res: String)
    ensures
        res@ == name@ + value@,
{
    let mut line = name.to_string();
    line.append(value);
    line
}

/// Adds the line that sets a variable, unless the value is empty.
fn set_if_any(ls: &mut Vec<String>, name: &str, value: &str)
    ensures
        final(ls).deep_view() == old(ls).deep_view() + set_line(name@, value@),
{
    if !value.is_empty() {
        ls.push(setting(name, value));
    }
    assert(ls.deep_view() =~= old(ls).deep_view() + set_line(name@, value@));
}

/// Adds the line that sets a variable, unless the value is empty and is not to be set so.
fn set_or_blank(ls: &mut Vec<String>, name: &str, value: &str, blank: bool)
    ensures
        final(ls).deep_view() == old(ls).deep_view() + set_line_or_blank(name@, value@, blank),
{
    if blank {
        ls.push(setting(name, value));
        assert(ls.deep_view() =~= old(ls).deep_view() + seq![name@ + value@]);
    } else {
        set_if_any(ls, name, value);
    }
}

/// The services' environment, as a file.
pub fn env_text(s: &EnvSource<'_>) -> (res: String)
    ensures
        res@ == joined(env_lines(*s), "\n"@) + "\n"@,
{
    let mut ls: Vec<String> = Vec::new();
    set_if_any(&mut ls, "MULTICLIPRELAY_RELAY=", trim(s.relay_addr));
    match crate::config::bind_hint_of(s.relay_addr) {
        Some(b) => {
            ls.push(setting("MULTICLIPRELAY_BIND=", b.as_str()));
        },
        None => {},
    }
    set_or_blank(&mut ls, "MULTICLIPRELAY_ROOM=", trim(s.room), s.sets_blank);
    let ghost head = ls.deep_view();
    ls.push(setting("MULTICLIPRELAY_MAX_TEXT_BYTES=", print(s.max_text_bytes as u128).as_str()));
    ls.push(setting("MULTICLIPRELAY_MAX_IMAGE_BYTES=", print(s.max_image_bytes as u128).as_str()));
    ls.push(setting("MULTICLIPRELAY_MAX_FILE_BYTES=", print(s.max_file_bytes as u128).as_str()));
    assert(ls.deep_view() =~= head + limit_lines(*s));
    set_or_blank(&mut ls, "MULTICLIPRELAY_IMAGE_MODE=", trim(s.image_mode), s.sets_blank);
    let ghost body = ls.deep_view();
    ls.push("MULTICLIPRELAY_WATCH_MODE=watch".to_string());
    ls.push("MULTICLIPRELAY_POLL_INTERVAL_MS=200".to_string());
    ls.push(
        setting(
            "MULTICLIPRELAY_X11_POLL_INTERVAL_MS=",
            print(s.x11_poll_interval_ms as u128).as_str(),
        ),
    );
    assert(ls.deep_view() =~= body + interval_lines(*s));
    assert(ls.deep_view() =~= env_lines(*s));
    let mut out = join(&ls, "\n");
    out.append("\n");
    out
}

/// What the services' environment is made from, of the panel's configuration. The panel sets
/// a blank room or image mode to nothing.
pub fn env_source<'a>(c: &'a UiConfig) -> (res: EnvSource<'a>)
    ensures
        res.relay_addr@ == c@.relay_addr,
        res.room@ == c@.room,
        res.max_text_bytes == c@.max_text_bytes,
        res.max_image_bytes == c@.max_image_bytes,
        res.max_file_bytes == c@.max_file_bytes,
        res.image_mode@ == c@.image_mode,
        res.x11_poll_interval_ms == c@.x11_poll_interval_ms,
        res.sets_blank,
{
    EnvSource {
        relay_addr: c.relay_addr.as_str(),
        room: c.room.as_str(),
        max_text_bytes: c.max_text_bytes,
        max_image_bytes: c.max_image_bytes,
        max_file_bytes: c.max_file_bytes,
        image_mode: c.image_mode.as_str(),
        x11_poll_interval_ms: c.x11_poll_interval_ms,
        sets_blank: true,
    }
}

/// What the services' environment is made from, of the tray's configuration, which has no
/// interval for X11. The tray leaves a blank room or image mode to the unit.
pub fn tray_env_source<'a>(c: &'a crate::tray_config::UiConfig) -> (res: EnvSource<'a>)
    ensures
        res.relay_addr@ == c@.relay_addr,
        res.room@ == c@.room,
        res.max_text_bytes == c@.max_text_bytes,
        res.max_image_bytes == c@.max_image_bytes,
        res.max_file_bytes == c@.max_file_bytes,
        res.image_mode@ == c@.image_mode,
        res.x11_poll_interval_ms == 200,
        !res.sets_blank,
{
    EnvSource {
        relay_addr: c.relay_addr.as_str(),
        room: c.room.as_str(),
        max_text_bytes: c.max_text_bytes,
        max_image_bytes: c.max_image_bytes,
        max_file_bytes: c.max_file_bytes,
        image_mode: c.image_mode.as_str(),
        x11_poll_interval_ms: 200,
        sets_blank: false,
    }
}

/// Where the first white space stands; the length where there is none.
pub open spec fn first_white(s: Seq<char>) -> nat
    decreases s.len(),
{
    if s.len() == 0 || is_white(s[0]) {
        0
    } else {
        1 + first_white(s.skip(1))
    }
}

/// Where the first white space stands.
fn first_white_of(cs: &Vec<char>) -> (res: usize)
    ensures
        res == first_white(cs@),
        res <= cs@.len(),
{
    let mut i: usize = 0;
    assert(cs@.skip(0) =~= cs@);
    while i < cs.len() && !white(cs[i])
        invariant
            i <= cs@.len(),
            first_white(cs@) == i + first_white(cs@.skip(i as int)),
        decreases cs@.len() - i,
    {
        assert(cs@.skip(i as int).skip(1) =~= cs@.skip(i + 1));
        assert(cs@.skip(i as int)[0] == cs@[i as int]);
        i += 1;
    }
    if i < cs.len() {
        assert(cs@.skip(i as int)[0] == cs@[i as int]);
    }
    i
}

/// The command of a unit: its program and what follows it.
#[verifier::ext_equal]
pub struct ExecStartView {
    pub program: Seq<char>,
    pub rest: Seq<char>,
}

/// The command that a line of a unit gives, where its program is an absolute path.
pub open spec fn exec_start(line: Seq<char>) -> Option<ExecStartView> {
    if "ExecStart="@.is_prefix_of(line) {
        let t = trimmed_start(line.skip("ExecStart="@.len() as int));
        if t.len() > 0 && t[0] == '/' {
            let cut = first_white(t) as int;
            Some(ExecStartView { program: t.take(cut), rest: t.skip(cut) })
        } else {
            None
        }
    } else {
        None
    }
}

/// The command of a unit: its program and what follows it.
pub struct ExecStart {
    pub program: String,
    pub rest: String,
}

/// The command that a line of a unit gives, where its program is an absolute path.
pub fn exec_start_of(line: &str) -> (res: Option<ExecStart>)
    ensures
        match res {
            Some(e) => exec_start(line@) == Some(
                ExecStartView { program: e.program@, rest: e.rest@ },
            ),
            None => exec_start(line@) is None,
        },
{
    if !starts_with(line, "ExecStart=") {
        return None;
    }
    proof {
        reveal_strlit("ExecStart=");
    }
    let all = chars_of(line);
    let after = text_of(&all, 10, all.len());
    assert(after@ =~= line@.skip(10));
    let t = trim_start(after.as_str());
    let cs = chars_of(t);
    if cs.len() == 0 || cs[0] != '/' {
        return None;
    }
    let cut = first_white_of(&cs);
    let program = text_of(&cs, 0, cut);
    let rest = text_of(&cs, cut, cs.len());
    assert(program@ =~= t@.take(cut as int));
    assert(rest@ =~= t@.skip(cut as int));
    Some(ExecStart { program, rest })
}

/// The programs of a unit's commands.
pub open spec fn programs(ls: Seq<Seq<char>>) -> Seq<Seq<char>>
    decreases ls.len(),
{
    if ls.len() == 0 {
        Seq::empty()
    } else {
        let before = programs(ls.drop_last());
        match exec_start(ls.last()) {
            Some(e) => before.push(e.program),
            None => before,
        }
    }
}

/// The programs of a unit's commands.
pub fn programs_of(unit: &str) -> (res: Vec<String>)
    ensures
        res.deep_view() == programs(lines_of(unit@)),
{
    let ls = lines(unit);
    let ghost all = ls.deep_view();
    let mut out: Vec<String> = Vec::new();
    let mut i: usize = 0;
    assert(all.take(0) =~= Seq::<Seq<char>>::empty());
    assert(out.deep_view() =~= Seq::<Seq<char>>::empty());
    while i < ls.len()
        invariant
            i <= ls@.len(),
            all == ls.deep_view(),
            all.len() == ls@.len(),
            out.deep_view() == programs(all.take(i as int)),
        decreases ls@.len() - i,
    {
        let ghost next = all.take(i + 1);
        assert(next.drop_last() =~= all.take(i as int));
        assert(next.last() == ls@[i as int]@);
        let ghost before = out.deep_view();
        match exec_start_of(ls[i].as_str()) {
            Some(e) => {
                let ghost p = e.program@;
                out.push(e.program);
                assert(out.deep_view() =~= before.push(p));
            },
            None => {},
        }
        i += 1;
    }
    assert(all.take(i as int) =~= all);
    out
}

/// The name of a program's file.
pub open spec fn file_name(program: Seq<char>) -> Option<Seq<char>> {
    last_name_text(crate::path::parts(vstd::utf8::encode_utf8(program)))
}

/// A text is among others.
pub open spec fn is_among(s: Seq<char>, all: Seq<Seq<char>>) -> bool {
    exists|i: int| 0 <= i < all.len() && #[trigger] all[i] == s
}

/// Whether a text is among others.
fn among(s: &str, all: &Vec<String>) -> (res: bool)
    ensures
        res == is_among(s@, all.deep_view()),
{
    let ghost v = all.deep_view();
    let mut i: usize = 0;
    while i < all.len()
        invariant
            i <= all@.len(),
            v == all.deep_view(),
            v.len() == all@.len(),
            forall|j: int| 0 <= j < i ==> #[trigger] v[j] != s@,
        decreases all@.len() - i,
    {
        assert(v[i as int] == all@[i as int]@);
        if same(s, all[i].as_str()) {
            return true;
        }
        i += 1;
    }
    false
}

/// The file names that the program of a unit may have.
pub open spec fn program_names(unit: Seq<char>) -> Seq<Seq<char>> {
    if unit == UNIT_RELAY@ {
        seq!["multicliprelay-relay"@, "relay"@]
    } else {
        seq!["multicliprelay-node"@, "node"@]
    }
}

/// The file names that the program of a unit may have.
pub fn program_names_of(unit: &str) -> (res: Vec<String>)
    ensures
        res.deep_view() == program_names(unit@),
{
    let mut out: Vec<String> = Vec::new();
    if same(unit, UNIT_RELAY) {
        out.push("multicliprelay-relay".to_string());
        out.push("relay".to_string());
    } else {
        out.push("multicliprelay-node".to_string());
        out.push("node".to_string());
    }
    assert(out.deep_view() =~= program_names(unit@));
    out
}

/// A line of a unit with a new program: only where the program is not there and has one of
/// the names. `there` holds the programs that are.
pub open spec fn repaired_line(
    line: Seq<char>,
    program: Seq<char>,
    names: Seq<Seq<char>>,
    there: Seq<Seq<char>>,
) -> Option<Seq<char>> {
    match exec_start(line) {
        Some(e) => if !is_among(e.program, there) && file_name(e.program) is Some && is_among(
            file_name(e.program)->0,
            names,
        ) {
            Some("ExecStart="@ + program + e.rest)
        } else {
            None
        },
        None => None,
    }
}

/// A line of a unit with a new program, where it needs one.
pub fn maybe_rewrite_execstart_line(
    line: &str,
    program: &str,
    names: &Vec<String>,
    there: &Vec<String>,
) -> (res: Option<String>)
    ensures
        opt_text(res) == repaired_line(line@, program@, names.deep_view(), there.deep_view()),
{
    let e = match exec_start_of(line) {
        Some(e) => e,
        None => return None,
    };
    if among(e.program.as_str(), there) {
        return None;
    }
    match last_name_text_of(&crate::path::parts_of(e.program.as_str().as_bytes())) {
        Some(name) => if !among(name.as_str(), names) {
            return None;
        },
        None => return None,
    }
    let mut out = "ExecStart=".to_string();
    out.append(program);
    out.append(e.rest.as_str());
    Some(out)
}

/// A unit's lines, each with a new program where it needs one.
pub open spec fn repaired_lines(
    ls: Seq<Seq<char>>,
    program: Seq<char>,
    names: Seq<Seq<char>>,
    there: Seq<Seq<char>>,
) -> Seq<Seq<char>> {
    ls.map_values(
        |l: Seq<char>|
            match repaired_line(l, program, names, there) {
                Some(n) => n,
                None => l,
            },
    )
}

/// Some line of a unit needs a new program.
pub open spec fn needs_repair(
    ls: Seq<Seq<char>>,
    program: Seq<char>,
    names: Seq<Seq<char>>,
    there: Seq<Seq<char>>,
) -> bool {
    exists|i: int|
        0 <= i < ls.len() && repaired_line(#[trigger] ls[i], program, names, there) is Some
}

/// A unit's file with a new program where its program is gone. Nothing where it needs
/// none.
pub fn repaired_unit(text: &str, program: &str, names: &Vec<String>, there: &Vec<String>) -> (res:
    Option<String>)
    ensures
        opt_text(res) == if needs_repair(
            lines_of(text@),
            program@,
            names.deep_view(),
            there.deep_view(),
        ) {
            Some(
                joined(
                    repaired_lines(
                        lines_of(text@),
                        program@,
                        names.deep_view(),
                        there.deep_view(),
                    ),
                    "\n"@,
                ) + "\n"@,
            )
        } else {
            None
        },
{
    let ls = lines(text);
    let ghost all = lines_of(text@);
    let ghost want = repaired_lines(all, program@, names.deep_view(), there.deep_view());
    assert(all.len() == ls@.len());
    let mut changed = false;
    let mut out: Vec<String> = Vec::new();
    let mut i: usize = 0;
    while i < ls.len()
        invariant
            i <= ls@.len(),
            all == ls.deep_view(),
            all.len() == ls@.len(),
            out@.len() == i,
            want == repaired_lines(all, program@, names.deep_view(), there.deep_view()),
            forall|j: int| 0 <= j < i ==> (#[trigger] out@[j])@ == want[j],
            changed == exists|j: int|
                0 <= j < i && repaired_line(
                    #[trigger] all[j],
                    program@,
                    names.deep_view(),
                    there.deep_view(),
                ) is Some,
        decreases ls@.len() - i,
    {
        assert(all[i as int] == ls@[i as int]@);
        match maybe_rewrite_execstart_line(ls[i].as_str(), program, names, there) {
            Some(n) => {
                out.push(n);
                changed = true;
            },
            None => {
                out.push(ls[i].clone());
            },
        }
        i += 1;
    }
    if !changed {
        return None;
    }
    assert(out.deep_view() =~= want);
    let mut file = join(&out, "\n");
    file.append("\n");
    Some(file)
}

/// A repaired line needs no repair again, where the new program is there and its path is
/// an absolute one without white space.
pub proof fn law_repair_is_done_once(
    line: Seq<char>,
    program: Seq<char>,
    names: Seq<Seq<char>>,
    there: Seq<Seq<char>>,
)
    requires
        repaired_line(line, program, names, there) is Some,
        program.len() > 0,
        program[0] == '/',
        forall|i: int| 0 <= i < program.len() ==> !is_white(#[trigger] program[i]),
        is_among(program, there),
    ensures
        repaired_line(repaired_line(line, program, names, there)->0, program, names, there) is None,
{
    let rest = exec_start(line)->0.rest;
    let new = "ExecStart="@ + program + rest;
    reveal_strlit("ExecStart=");
    let t = trimmed_start(line.skip(10));
    lemma_first_white(t);
    let after = new.skip(10);
    assert(after =~= program + rest);
    assert(new.take(10) =~= "ExecStart="@);
    assert(!is_white('/'));
    assert(after[0] == '/');
    assert(trimmed_start(after) == after);
    lemma_cut(program, rest);
    assert(after.take(program.len() as int) =~= program);
    assert(exec_start(new)->0.program =~= program);
}

/// What follows the first white space begins with it.
proof fn lemma_first_white(s: Seq<char>)
    ensures
        first_white(s) <= s.len(),
        s.skip(first_white(s) as int).len() == 0 || is_white(s.skip(first_white(s) as int)[0]),
    decreases s.len(),
{
    if s.len() > 0 && !is_white(s[0]) {
        lemma_first_white(s.skip(1));
        assert(s.skip(1).skip(first_white(s.skip(1)) as int) =~= s.skip(first_white(s) as int));
    } else {
        assert(s.skip(0) =~= s);
    }
}

/// The first white space stands after a text without any.
proof fn lemma_cut(a: Seq<char>, b: Seq<char>)
    requires
        forall|i: int| 0 <= i < a.len() ==> !is_white(#[trigger] a[i]),
        b.len() == 0 || is_white(b[0]),
    ensures
        first_white(a + b) == a.len(),
    decreases a.len(),
{
    if a.len() > 0 {
        let c = a.skip(1);
        assert forall|i: int| 0 <= i < c.len() implies !is_white(#[trigger] c[i]) by {
            assert(c[i] == a[i + 1]);
        }
        lemma_cut(c, b);
        assert((a + b).skip(1) =~= c + b);
        assert((a + b)[0] == a[0]);
    } else {
        assert(a + b =~= b);
    }
}

/// The user's units.
pub fn unit_file_path(base: Option<&[u8]>, unit: &str) -> (res: Vec<u8>)
    ensures
        res@ == in_dir(
            in_dir(
                in_dir(
                    match base {
                        Some(b) => b@,
                        None => vstd::utf8::encode_utf8(".config"@),
                    },
                    "systemd"@,
                ),
                "user"@,
            ),
            unit@,
        ),
{
    let dir = match base {
        Some(b) => join_text(b, "systemd"),
        None => join_text(".config".as_bytes(), "systemd"),
    };
    let user = join_text(dir.as_slice(), "user");
    join_text(user.as_slice(), unit)
}

/// The file of the services' environment.
pub fn env_path(base: Option<&[u8]>) -> (res: Vec<u8>)
    ensures
        res@ == in_dir(
            in_dir(
                match base {
                    Some(b) => b@,
                    None => vstd::utf8::encode_utf8(".config"@),
                },
                "multicliprelay"@,
            ),
            "multicliprelay.env"@,
        ),
{
    let dir = match base {
        Some(b) => join_text(b, "multicliprelay"),
        None => join_text(".config".as_bytes(), "multicliprelay"),
    };
    join_text(dir.as_slice(), "multicliprelay.env")
}

/// The services' environment sets the room, the image mode, the relay's address and the limits
/// to what they are, without the white space around them, and the address to listen at where
/// there is one.
pub proof fn law_environment_holds_the_settings(s: EnvSource<'_>)
    ensures
        trimmed(s.relay_addr@).len() > 0 ==> env_lines(s).contains(
            "MULTICLIPRELAY_RELAY="@ + trimmed(s.relay_addr@),
        ),
        bind_hint(s.relay_addr@) matches Some(b) ==> env_lines(s).contains(
            "MULTICLIPRELAY_BIND="@ + b,
        ),
        trimmed(s.room@).len() > 0 || s.sets_blank ==> env_lines(s).contains(
            "MULTICLIPRELAY_ROOM="@ + trimmed(s.room@),
        ),
        trimmed(s.image_mode@).len() > 0 || s.sets_blank ==> env_lines(s).contains(
            "MULTICLIPRELAY_IMAGE_MODE="@ + trimmed(s.image_mode@),
        ),
        env_lines(s).contains(
            "MULTICLIPRELAY_MAX_TEXT_BYTES="@ + decimal(s.max_text_bytes as nat),
        ),
        env_lines(s).contains(
            "MULTICLIPRELAY_MAX_IMAGE_BYTES="@ + decimal(s.max_image_bytes as nat),
        ),
        env_lines(s).contains(
            "MULTICLIPRELAY_MAX_FILE_BYTES="@ + decimal(s.max_file_bytes as nat),
        ),
        env_lines(s).contains(
            "MULTICLIPRELAY_X11_POLL_INTERVAL_MS="@ + decimal(s.x11_poll_interval_ms as nat),
        ),
        env_lines(s).contains("MULTICLIPRELAY_WATCH_MODE=watch"@),
        env_lines(s).len() <= 10,
{
    let a = set_line("MULTICLIPRELAY_RELAY="@, trimmed(s.relay_addr@));
    let b = match bind_hint(s.relay_addr@) {
        Some(b) => seq!["MULTICLIPRELAY_BIND="@ + b],
        None => Seq::empty(),
    };
    let c = set_line_or_blank("MULTICLIPRELAY_ROOM="@, trimmed(s.room@), s.sets_blank);
    let d = limit_lines(s);
    let e = set_line_or_blank("MULTICLIPRELAY_IMAGE_MODE="@, trimmed(s.image_mode@), s.sets_blank);
    let f = interval_lines(s);
    let all = env_lines(s);
    assert(all == a + b + c + d + e + f);
    let na = a.len() as int;
    let nb = na + b.len();
    let nc = nb + c.len();
    let nd = nc + 3;
    let ne = nd + e.len();
    if a.len() > 0 {
        assert(all[0] == a[0]);
    }
    if b.len() > 0 {
        assert(all[na] == b[0]);
    }
    if c.len() > 0 {
        assert(all[nb] == c[0]);
    }
    assert(all[nc] == d[0]);
    assert(all[nc + 1] == d[1]);
    assert(all[nc + 2] == d[2]);
    if e.len() > 0 {
        assert(all[nd] == e[0]);
    }
    assert(all[ne] == f[0]);
    assert(all[ne + 1] == f[1]);
    assert(all[ne + 2] == f[2]);
}

/// A unit's line that gives a command is read as its program, up to the first white space, and
/// the rest.
pub proof fn law_commands_are_read(head: Seq<char>, program: Seq<char>, rest: Seq<char>)
    requires
        forall|i: int| 0 <= i < head.len() ==> is_white(#[trigger] head[i]),
        program.len() > 0,
        program[0] == '/',
        forall|i: int| 0 <= i < program.len() ==> !is_white(#[trigger] program[i]),
        rest.len() > 0 ==> is_white(rest[0]),
    ensures
        exec_start("ExecStart="@ + head + program + rest) == Some(ExecStartView { program, rest }),
{
    reveal_strlit("ExecStart=");
    let line = "ExecStart="@ + head + program + rest;
    assert("ExecStart="@ =~= line.take(10));
    assert(line.skip(10) =~= head + (program + rest));
    lemma_leading_white(head, program + rest);
    lemma_cut(program, rest);
    let t = program + rest;
    assert(t.take(program.len() as int) =~= program);
    assert(t.skip(program.len() as int) =~= rest);
}

proof fn lemma_leading_white(head: Seq<char>, text: Seq<char>)
    requires
        forall|i: int| 0 <= i < head.len() ==> is_white(#[trigger] head[i]),
        text.len() > 0,
        !is_white(text[0]),
    ensures
        trimmed_start(head + text) == text,
    decreases head.len(),
{
    let s = head + text;
    if head.len() == 0 {
        assert(s =~= text);
    } else {
        assert(s[0] == head[0]);
        assert(s.drop_first() =~= head.drop_first() + text);
        lemma_leading_white(head.drop_first(), text);
    }
}

/// A command whose program is gone and had one of the names gets the new program, and keeps
/// what follows; a program that is there, or one of another name, stays.
pub proof fn law_which_commands_are_repaired(
    gone: Seq<char>,
    rest: Seq<char>,
    program: Seq<char>,
    names: Seq<Seq<char>>,
    there: Seq<Seq<char>>,
)
    requires
        gone.len() > 0,
        gone[0] == '/',
        forall|i: int| 0 <= i < gone.len() ==> !is_white(#[trigger] gone[i]),
        rest.len() > 0 ==> is_white(rest[0]),
    ensures
        repaired_line("ExecStart="@ + gone + rest, program, names, there) == if !there.contains(gone)
            && (file_name(gone) matches Some(n) && names.contains(n)) {
            Some("ExecStart="@ + program + rest)
        } else {
            None
        },
{
    law_commands_are_read(Seq::empty(), gone, rest);
    assert("ExecStart="@ + Seq::<char>::empty() + gone + rest =~= "ExecStart="@ + gone + rest);
    assert(is_among(gone, there) <==> there.contains(gone));
    if let Some(n) = file_name(gone) {
        assert(is_among(n, names) <==> names.contains(n));
    }
}

/// A repair changes commands alone: a line that does not start with one stays, and no line is
/// added or lost.
pub proof fn law_repair_keeps_other_lines(
    ls: Seq<Seq<char>>,
    program: Seq<char>,
    names: Seq<Seq<char>>,
    there: Seq<Seq<char>>,
    i: int,
)
    requires
        0 <= i < ls.len(),
    ensures
        repaired_lines(ls, program, names, there).len() == ls.len(),
        !"ExecStart="@.is_prefix_of(ls[i]) ==> repaired_lines(ls, program, names, there)[i] == ls[i],
        repaired_line(ls[i], program, names, there) matches Some(n) ==> repaired_lines(
            ls,
            program,
            names,
            there,
        )[i] == n && needs_repair(ls, program, names, there),
        repaired_line(ls[i], program, names, there) is None ==> repaired_lines(
            ls,
            program,
            names,
            there,
        )[i] == ls[i],
{
}

/// The programs of a unit are those of its commands, all of them, in order.
pub proof fn law_programs_of_a_unit(a: Seq<Seq<char>>, b: Seq<Seq<char>>, line: Seq<char>)
    ensures
        programs(a + b) == programs(a) + programs(b),
        programs(seq![line]) == match exec_start(line) {
            Some(e) => seq![e.program],
            None => Seq::empty(),
        },
    decreases b.len(),
{
    assert(seq![line].drop_last() =~= Seq::<Seq<char>>::empty());
    assert(programs(Seq::<Seq<char>>::empty()) =~= Seq::<Seq<char>>::empty());
    assert(seq![line].last() == line);
    assert(programs(seq![line]) =~= match exec_start(line) {
        Some(e) => seq![e.program],
        None => Seq::empty(),
    });
    if b.len() == 0 {
        assert(a + b =~= a);
        assert(programs(a) + programs(b) =~= programs(a));
    } else {
        law_programs_of_a_unit(a, b.drop_last(), line);
        assert((a + b).drop_last() =~= a + b.drop_last());
        assert((a + b).last() == b.last());
        assert(programs(a + b) =~= programs(a) + programs(b));
    }
}

/// The relay's unit runs the relay, and every other one the node, each under one of two names.
pub proof fn law_which_program_a_unit_runs(unit: Seq<char>, name: Seq<char>)
    ensures
        unit == "multicliprelay-relay.service"@ ==> (program_names(unit).contains(name) <==> name
            == "multicliprelay-relay"@ || name == "relay"@),
        unit != "multicliprelay-relay.service"@ ==> (program_names(unit).contains(name) <==> name
            == "multicliprelay-node"@ || name == "node"@),
{
    let p = program_names(unit);
    if unit == "multicliprelay-relay.service"@ {
        assert(p[0] == "multicliprelay-relay"@ && p[1] == "relay"@);
    } else {
        assert(p[0] == "multicliprelay-node"@ && p[1] == "node"@);
    }
}

} // verus!
