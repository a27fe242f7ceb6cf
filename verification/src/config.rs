//! The control panel's configuration.

use crate::number::{decimal, number, parse, print};
use crate::path::join_text;
use crate::paths::in_dir;
use crate::text::{starts_with, trim, trimmed};
use crate::textmap::TextMap;
use crate::wire::opt_text;
use vstd::prelude::*;

verus! {

/// The image mode where none is chosen.
pub const DEFAULT_IMAGE_MODE_ID: &'static str = "force-png";

/// The language where none is chosen: the one of the system.
pub const LANG_AUTO_ID: &'static str = "auto";

pub struct UiConfig {
    pub relay_addr: String,
    pub room: String,
    pub max_text_bytes: usize,
    pub max_image_bytes: usize,
    pub max_file_bytes: usize,
    pub image_mode: String,
    pub x11_poll_interval_ms: u64,
    pub language: String,
    /// Whether a column of the history is shown, by the column's name. Columns without an
    /// entry are shown or not as is usual.
    pub history_columns: TextMap<bool>,
    /// How the image mode was written at first.
    pub force_png: Option<bool>,
}

#[verifier::ext_equal]
pub struct ConfigView {
    pub relay_addr: Seq<char>,
    pub room: Seq<char>,
    pub max_text_bytes: usize,
    pub max_image_bytes: usize,
    pub max_file_bytes: usize,
    pub image_mode: Seq<char>,
    pub x11_poll_interval_ms: u64,
    pub language: Seq<char>,
    pub history_columns: Map<Seq<char>, bool>,
    pub force_png: Option<bool>,
}

impl View for UiConfig {
    type V = ConfigView;

    open spec fn view(&self) -> ConfigView {
        ConfigView {
            relay_addr: self.relay_addr@,
            room: self.room@,
            max_text_bytes: self.max_text_bytes,
            max_image_bytes: self.max_image_bytes,
            max_file_bytes: self.max_file_bytes,
            image_mode: self.image_mode@,
            x11_poll_interval_ms: self.x11_poll_interval_ms,
            language: self.language@,
            history_columns: self.history_columns@,
            force_png: self.force_png,
        }
    }
}

/// What is used without a configuration.
pub open spec fn default_config() -> ConfigView {
    ConfigView {
        relay_addr: "127.0.0.1:8080"@,
        room: "default"@,
        max_text_bytes: 1048576,
        max_image_bytes: 20971520,
        max_file_bytes: 20971520,
        image_mode: DEFAULT_IMAGE_MODE_ID@,
        x11_poll_interval_ms: 200,
        language: LANG_AUTO_ID@,
        history_columns: Map::empty(),
        force_png: None,
    }
}

/// The image mode of a configuration in which it may be written as at first.
pub open spec fn migrated_mode(force_png: Option<bool>, image_mode: Seq<char>) -> Seq<char> {
    match force_png {
        Some(true) => "force-png"@,
        Some(false) => "multi"@,
        None => image_mode,
    }
}

/// The image mode of a configuration in which it may be written as at first.
pub(crate) fn migrated_mode_of(force_png: Option<bool>, image_mode: String) -> (res: String)
    ensures
        res@ == migrated_mode(force_png, image_mode@),
{
    match force_png {
        Some(true) => "force-png".to_string(),
        Some(false) => "multi".to_string(),
        None => image_mode,
    }
}

/// An address at which a relay can listen here: it looks like one of this machine.
pub open spec fn is_local(addr: Seq<char>) -> bool {
    ||| "127."@.is_prefix_of(addr)
    ||| "0.0.0.0"@.is_prefix_of(addr)
    ||| "[::1]"@.is_prefix_of(addr)
    ||| "localhost"@.is_prefix_of(addr)
}

/// Where a relay can listen, given the address to connect to: nowhere where that is one of
/// another machine.
pub open spec fn bind_hint(addr: Seq<char>) -> Option<Seq<char>> {
    if is_local(trimmed(addr)) {
        Some(trimmed(addr))
    } else {
        None
    }
}

/// Where a relay can listen is not empty.
pub proof fn lemma_bind_hint(addr: Seq<char>)
    requires
        bind_hint(addr) is Some,
    ensures
        bind_hint(addr)->0.len() > 0,
{
    reveal_strlit("127.");
    reveal_strlit("0.0.0.0");
    reveal_strlit("[::1]");
    reveal_strlit("localhost");
}

/// Where a relay can listen, given the address to connect to.
pub fn bind_hint_of(addr: &str) -> (res: Option<String>)
    ensures
        opt_text(res) == bind_hint(addr@),
{
    let s = trim(addr);
    if starts_with(s, "127.") || starts_with(s, "0.0.0.0") || starts_with(s, "[::1]")
        || starts_with(s, "localhost") {
        Some(s.to_string())
    } else {
        None
    }
}

/// What the panel's form holds.
pub struct Form {
    pub relay_addr: String,
    pub room: String,
    pub max_text_bytes: usize,
    pub max_image_bytes: usize,
    pub max_file_bytes: usize,
    pub x11_poll_interval_ms: u64,
    /// The image mode that is chosen, if one is.
    pub image_mode: Option<String>,
    /// The language that is chosen, if one is.
    pub language: Option<String>,
}

/// A choice, or what stands for it.
pub open spec fn choice(s: Option<Seq<char>>, default: Seq<char>) -> Seq<char> {
    match s {
        Some(s) => s,
        None => default,
    }
}

/// A choice, or what stands for it.
pub fn choice_or(s: Option<String>, default: &str) -> (res: String)
    ensures
        res@ == choice(opt_text(s), default@),
{
    match s {
        Some(s) => s,
        None => default.to_string(),
    }
}

/// A configuration with what the form holds. What is not on the form stays.
pub open spec fn with_form(c: ConfigView, f: Form) -> ConfigView {
    ConfigView {
        relay_addr: f.relay_addr@,
        room: f.room@,
        max_text_bytes: f.max_text_bytes,
        max_image_bytes: f.max_image_bytes,
        max_file_bytes: f.max_file_bytes,
        image_mode: choice(opt_text(f.image_mode), DEFAULT_IMAGE_MODE_ID@),
        x11_poll_interval_ms: f.x11_poll_interval_ms,
        language: choice(opt_text(f.language), LANG_AUTO_ID@),
        history_columns: c.history_columns,
        force_png: None,
    }
}

/// Fields of a panel in which all is text.
pub struct Inputs {
    pub relay_addr: String,
    pub room: String,
    pub max_text_bytes: String,
    pub max_image_bytes: String,
    pub max_file_bytes: String,
    pub image_mode: String,
}

#[verifier::ext_equal]
pub struct InputsView {
    pub relay_addr: Seq<char>,
    pub room: Seq<char>,
    pub max_text_bytes: Seq<char>,
    pub max_image_bytes: Seq<char>,
    pub max_file_bytes: Seq<char>,
    pub image_mode: Seq<char>,
}

impl View for Inputs {
    type V = InputsView;

    open spec fn view(&self) -> InputsView {
        InputsView {
            relay_addr: self.relay_addr@,
            room: self.room@,
            max_text_bytes: self.max_text_bytes@,
            max_image_bytes: self.max_image_bytes@,
            max_file_bytes: self.max_file_bytes@,
            image_mode: self.image_mode@,
        }
    }
}

/// The fields for a configuration.
pub open spec fn inputs_for(c: ConfigView) -> InputsView {
    InputsView {
        relay_addr: c.relay_addr,
        room: c.room,
        max_text_bytes: decimal(c.max_text_bytes as nat),
        max_image_bytes: decimal(c.max_image_bytes as nat),
        max_file_bytes: decimal(c.max_file_bytes as nat),
        image_mode: c.image_mode,
    }
}

/// A limit as it was typed; the limit before where that is no number.
pub open spec fn typed_limit(s: Seq<char>, before: usize) -> usize {
    match number(trimmed(s), usize::MAX as nat) {
        Some(n) => n as usize,
        None => before,
    }
}

fn typed_limit_of(s: &str, before: usize) -> (res: usize)
    ensures
        res == typed_limit(s@, before),
{
    match parse(trim(s), usize::MAX as u64) {
        Some(n) => n as usize,
        None => before,
    }
}

/// A configuration with what the fields hold.
pub open spec fn with_inputs(c: ConfigView, i: InputsView) -> ConfigView {
    ConfigView {
        relay_addr: trimmed(i.relay_addr),
        room: trimmed(i.room),
        image_mode: trimmed(i.image_mode),
        max_text_bytes: typed_limit(i.max_text_bytes, c.max_text_bytes),
        max_image_bytes: typed_limit(i.max_image_bytes, c.max_image_bytes),
        max_file_bytes: typed_limit(i.max_file_bytes, c.max_file_bytes),
        ..c
    }
}

impl UiConfig {
    /// The columns' names are a map's keys.
    pub open spec fn wf(&self) -> bool {
        self.history_columns.wf()
    }

    /// The configuration, after it was read, with the image mode as it is written now.
    pub fn migrated(self) -> (res: UiConfig)
        requires
            self.wf(),
        ensures
            res.wf(),
            res@ == (ConfigView {
                image_mode: migrated_mode(self@.force_png, self@.image_mode),
                force_png: None,
                ..self@
            }),
    {
        let mut c = self;
        c.image_mode = migrated_mode_of(c.force_png, c.image_mode);
        c.force_png = None;
        c
    }

    /// Where a relay can listen: nowhere where its address is one of another machine.
    pub fn relay_bind_hint(&self) -> (res: Option<String>)
        ensures
            opt_text(res) == bind_hint(self@.relay_addr),
    {
        bind_hint_of(self.relay_addr.as_str())
    }

    /// Takes over what the form holds. What is not on the form stays.
    pub fn take_form(&mut self, f: Form)
        requires
            old(self).wf(),
        ensures
            final(self).wf(),
            final(self)@ == with_form(old(self)@, f),
    {
        self.relay_addr = f.relay_addr;
        self.room = f.room;
        self.max_text_bytes = f.max_text_bytes;
        self.max_image_bytes = f.max_image_bytes;
        self.max_file_bytes = f.max_file_bytes;
        self.image_mode = choice_or(f.image_mode, DEFAULT_IMAGE_MODE_ID);
        self.x11_poll_interval_ms = f.x11_poll_interval_ms;
        self.language = choice_or(f.language, LANG_AUTO_ID);
        self.force_png = None;
    }

    /// Shows or hides a column of the history.
    pub fn set_column(&mut self, id: &str, visible: bool)
        requires
            old(self).wf(),
        ensures
            final(self).wf(),
            final(self)@ == (ConfigView {
                history_columns: old(self)@.history_columns.insert(id@, visible),
                ..old(self)@
            }),
    {
        self.history_columns.insert(id, visible);
    }

    /// The fields for the configuration.
    pub fn inputs(&self) -> (res: Inputs)
        ensures
            res@ == inputs_for(self@),
    {
        Inputs {
            relay_addr: self.relay_addr.clone(),
            room: self.room.clone(),
            max_text_bytes: print(self.max_text_bytes as u128),
            max_image_bytes: print(self.max_image_bytes as u128),
            max_file_bytes: print(self.max_file_bytes as u128),
            image_mode: self.image_mode.clone(),
        }
    }

    /// Takes over what the fields hold. A limit that is no number stays as it was.
    pub fn take_inputs(&mut self, i: &Inputs)
        requires
            old(self).wf(),
        ensures
            final(self).wf(),
            final(self)@ == with_inputs(old(self)@, i@),
    {
        self.relay_addr = trim(i.relay_addr.as_str()).to_string();
        self.room = trim(i.room.as_str()).to_string();
        self.image_mode = trim(i.image_mode.as_str()).to_string();
        self.max_text_bytes = typed_limit_of(i.max_text_bytes.as_str(), self.max_text_bytes);
        self.max_image_bytes = typed_limit_of(i.max_image_bytes.as_str(), self.max_image_bytes);
        self.max_file_bytes = typed_limit_of(i.max_file_bytes.as_str(), self.max_file_bytes);
    }
}

impl Default for UiConfig {
    fn default() -> (res: UiConfig)
        ensures
            res.wf(),
            res@ == default_config(),
    {
        UiConfig {
            relay_addr: "127.0.0.1:8080".to_string(),
            room: "default".to_string(),
            max_text_bytes: 1048576,
            max_image_bytes: 20971520,
            max_file_bytes: 20971520,
            image_mode: DEFAULT_IMAGE_MODE_ID.to_string(),
            x11_poll_interval_ms: 200,
            language: LANG_AUTO_ID.to_string(),
            history_columns: TextMap::new(),
            force_png: None,
        }
    }
}

/// The file of the configuration, given the user's directory for configurations.
pub fn config_path(base: Option<&[u8]>) -> (res: Vec<u8>)
    ensures
        res@ == in_dir(
            in_dir(
                match base {
                    Some(b) => b@,
                    None => vstd::utf8::encode_utf8(".config"@),
                },
                "multicliprelay"@,
            ),
            "ui.toml"@,
        ),
{
    let dir = match base {
        Some(b) => join_text(b, "multicliprelay"),
        None => join_text(".config".as_bytes(), "multicliprelay"),
    };
    join_text(dir.as_slice(), "ui.toml")
}

/// A migrated configuration stays as it is.
pub proof fn law_migration_is_done_once(force_png: Option<bool>, mode: Seq<char>)
    ensures
        migrated_mode(None, migrated_mode(force_png, mode)) == migrated_mode(force_png, mode),
{
}

/// A configuration that is shown in fields and taken over unchanged is the same, but for
/// white space around its texts.
pub proof fn law_fields_keep_the_configuration(c: ConfigView)
    ensures
        with_inputs(c, inputs_for(c)) == (ConfigView {
            relay_addr: trimmed(c.relay_addr),
            room: trimmed(c.room),
            image_mode: trimmed(c.image_mode),
            ..c
        }),
{
    lemma_typed(c.max_text_bytes);
    lemma_typed(c.max_image_bytes);
    lemma_typed(c.max_file_bytes);
}

proof fn lemma_typed(n: usize)
    ensures
        typed_limit(decimal(n as nat), n) == n,
{
    let d = decimal(n as nat);
    crate::number::law_print_then_parse(n as nat, usize::MAX as nat);
    crate::number::lemma_decimal(n as nat);
    assert(!crate::text::is_white(d[0]) && !crate::text::is_white(d.last()));
    crate::text::lemma_trimmed(d);
}

/// A relay can listen at the address that is connected to, without the white space around it,
/// where that is one of this machine by its start; and nowhere otherwise.
pub proof fn law_where_a_relay_can_listen(head: Seq<char>, addr: Seq<char>, tail: Seq<char>)
    requires
        forall|i: int| 0 <= i < head.len() ==> crate::text::is_white(#[trigger] head[i]),
        forall|i: int| 0 <= i < tail.len() ==> crate::text::is_white(#[trigger] tail[i]),
        addr.len() > 0,
        !crate::text::is_white(addr[0]),
        !crate::text::is_white(addr.last()),
    ensures
        bind_hint(head + addr + tail) == if "127."@.is_prefix_of(addr) || "0.0.0.0"@.is_prefix_of(
            addr,
        ) || "[::1]"@.is_prefix_of(addr) || "localhost"@.is_prefix_of(addr) {
            Some(addr)
        } else {
            None
        },
{
    crate::text::law_trimming(head, addr, tail);
}

/// The image mode is the one that is written, unless it is written as at first.
pub proof fn law_image_mode_is_kept(mode: Seq<char>)
    ensures
        migrated_mode(None, mode) == mode,
        migrated_mode(Some(true), mode) == "force-png"@,
        migrated_mode(Some(false), mode) == "multi"@,
{
}

/// What the form holds is taken over, each part as it is, and the columns of the history stay.
pub proof fn law_form_is_taken_over(c: ConfigView, f: Form)
    ensures
        ({
            let d = with_form(c, f);
            &&& d.relay_addr == f.relay_addr@
            &&& d.room == f.room@
            &&& d.max_text_bytes == f.max_text_bytes
            &&& d.max_image_bytes == f.max_image_bytes
            &&& d.max_file_bytes == f.max_file_bytes
            &&& d.x11_poll_interval_ms == f.x11_poll_interval_ms
            &&& f.image_mode matches Some(m) ==> d.image_mode == m@
            &&& f.language matches Some(l) ==> d.language == l@
            &&& d.history_columns == c.history_columns
        }),
{
}

/// A limit that is typed is taken over, with or without white space around it; what is no
/// number leaves the limit as it was.
pub proof fn law_typed_limits_are_taken_over(
    head: Seq<char>,
    n: usize,
    tail: Seq<char>,
    before: usize,
    other: Seq<char>,
)
    requires
        forall|i: int| 0 <= i < head.len() ==> crate::text::is_white(#[trigger] head[i]),
        forall|i: int| 0 <= i < tail.len() ==> crate::text::is_white(#[trigger] tail[i]),
    ensures
        typed_limit(head + decimal(n as nat) + tail, before) == n,
        number(trimmed(other), usize::MAX as nat) is None ==> typed_limit(other, before) == before,
{
    let d = decimal(n as nat);
    crate::number::law_print_then_parse(n as nat, usize::MAX as nat);
    crate::number::lemma_decimal(n as nat);
    assert(!crate::text::is_white(d[0]) && !crate::text::is_white(d.last()));
    crate::text::law_trimming(head, d, tail);
}

/// A choice counts where one was made.
pub proof fn law_a_choice_counts(s: Seq<char>, default: Seq<char>)
    ensures
        choice(Some(s), default) == s,
        choice(None, default) == default,
{
}

/// What the fields hold is taken over, without the white space around it; what is not in a
/// field stays.
pub proof fn law_fields_are_taken_over(c: ConfigView, i: InputsView)
    ensures
        ({
            let d = with_inputs(c, i);
            &&& d.relay_addr == trimmed(i.relay_addr)
            &&& d.room == trimmed(i.room)
            &&& d.image_mode == trimmed(i.image_mode)
            &&& d.max_text_bytes == typed_limit(i.max_text_bytes, c.max_text_bytes)
            &&& d.max_image_bytes == typed_limit(i.max_image_bytes, c.max_image_bytes)
            &&& d.max_file_bytes == typed_limit(i.max_file_bytes, c.max_file_bytes)
            &&& d.language == c.language
            &&& d.history_columns == c.history_columns
            &&& d.x11_poll_interval_ms == c.x11_poll_interval_ms
        }),
{
}

} // verus!
