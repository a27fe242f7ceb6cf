//! The history of what was sent and received: one event for each message.

use crate::message::{payload_len, Kind, Message, MessageView};
use crate::wire::opt_text;
use vstd::prelude::*;

verus! {

/// One event.
#[derive(Clone, Debug)]
pub struct HistoryEvent {
    pub ts_ms: u64,
    pub dir: String,
    pub room: String,
    pub relay: String,
    pub local_device_id: String,
    pub local_device_name: Option<String>,
    pub remote_device_id: Option<String>,
    pub remote_device_name: Option<String>,
    pub kind: String,
    pub mime: Option<String>,
    pub name: Option<String>,
    pub bytes: usize,
    pub sha256: Option<String>,
}

/// One event.
#[verifier::ext_equal]
pub struct EventView {
    pub ts_ms: u64,
    pub dir: Seq<char>,
    pub room: Seq<char>,
    pub relay: Seq<char>,
    pub local_device_id: Seq<char>,
    pub local_device_name: Option<Seq<char>>,
    pub remote_device_id: Option<Seq<char>>,
    pub remote_device_name: Option<Seq<char>>,
    pub kind: Seq<char>,
    pub mime: Option<Seq<char>>,
    pub name: Option<Seq<char>>,
    pub bytes: nat,
    pub sha256: Option<Seq<char>>,
}

impl View for HistoryEvent {
    type V = EventView;

    open spec fn view(&self) -> EventView {
        EventView {
            ts_ms: self.ts_ms,
            dir: self.dir@,
            room: self.room@,
            relay: self.relay@,
            local_device_id: self.local_device_id@,
            local_device_name: opt_text(self.local_device_name),
            remote_device_id: opt_text(self.remote_device_id),
            remote_device_name: opt_text(self.remote_device_name),
            kind: self.kind@,
            mime: opt_text(self.mime),
            name: opt_text(self.name),
            bytes: self.bytes as nat,
            sha256: opt_text(self.sha256),
        }
    }
}

/// The word for a kind.
pub open spec fn kind_word(k: Kind) -> Seq<char> {
    match k {
        Kind::Text => "text"@,
        Kind::Image => "image"@,
        Kind::File => "file"@,
        Kind::Join => "join"@,
    }
}

/// The word for a kind.
pub fn kind_to_string(k: Kind) -> (res: String)
    ensures
        res@ == kind_word(k),
{
    match k {
        Kind::Text => "text".to_string(),
        Kind::Image => "image".to_string(),
        Kind::File => "file".to_string(),
        Kind::Join => "join".to_string(),
    }
}

/// The event for a message that this device sent at `ts_ms`.
pub fn sent_event(
    ts_ms: u64,
    local_device_id: &str,
    local_device_name: Option<String>,
    room: &str,
    relay: &str,
    kind: Kind,
    mime: Option<String>,
    name: Option<String>,
    bytes: usize,
    sha256: Option<String>,
) -> (res: HistoryEvent)
    ensures
        res@ == (EventView {
            ts_ms,
            dir: "send"@,
            room: room@,
            relay: relay@,
            local_device_id: local_device_id@,
            local_device_name: opt_text(local_device_name),
            remote_device_id: None,
            remote_device_name: None,
            kind: kind_word(kind),
            mime: opt_text(mime),
            name: opt_text(name),
            bytes: bytes as nat,
            sha256: opt_text(sha256),
        }),
{
    HistoryEvent {
        ts_ms,
        dir: "send".to_string(),
        room: room.to_string(),
        relay: relay.to_string(),
        local_device_id: local_device_id.to_string(),
        local_device_name,
        remote_device_id: None,
        remote_device_name: None,
        kind: kind_to_string(kind),
        mime,
        name,
        bytes,
        sha256,
    }
}

/// A copy of an optional text.
pub(crate) fn copy_opt(o: &Option<String>) -> (res: Option<String>)
    ensures
        opt_text(res) == opt_text(*o),
{
    match o {
        Some(s) => Some(s.clone()),
        None => None,
    }
}

/// The event for a message that this device received.
pub open spec fn received(
    ts_ms: u64,
    local_device_id: Seq<char>,
    local_device_name: Option<Seq<char>>,
    room: Seq<char>,
    relay: Seq<char>,
    msg: MessageView,
) -> EventView {
    EventView {
        ts_ms,
        dir: "recv"@,
        room,
        relay,
        local_device_id,
        local_device_name,
        remote_device_id: Some(msg.device_id),
        remote_device_name: msg.sender_name,
        kind: kind_word(msg.kind),
        mime: msg.mime,
        name: msg.name,
        bytes: payload_len(msg.payload),
        sha256: msg.sha256,
    }
}

/// The event for a message that this device received at `ts_ms`.
pub fn received_event(
    ts_ms: u64,
    local_device_id: &str,
    local_device_name: Option<String>,
    room: &str,
    relay: &str,
    msg: &Message,
) -> (res: HistoryEvent)
    ensures
        res@ == received(
            ts_ms,
            local_device_id@,
            opt_text(local_device_name),
            room@,
            relay@,
            msg@,
        ),
{
    HistoryEvent {
        ts_ms,
        dir: "recv".to_string(),
        room: room.to_string(),
        relay: relay.to_string(),
        local_device_id: local_device_id.to_string(),
        local_device_name,
        remote_device_id: Some(msg.device_id.clone()),
        remote_device_name: copy_opt(&msg.sender_name),
        kind: kind_to_string(msg.kind),
        mime: copy_opt(&msg.mime),
        name: copy_opt(&msg.name),
        bytes: match &msg.payload {
            Some(p) => p.len(),
            None => 0,
        },
        sha256: copy_opt(&msg.sha256),
    }
}

/// Every kind has a word of its own.
pub proof fn law_kinds_have_words_of_their_own(a: Kind, b: Kind)
    requires
        kind_word(a) == kind_word(b),
    ensures
        a == b,
{
    reveal_strlit("text");
    reveal_strlit("image");
    reveal_strlit("file");
    reveal_strlit("join");
    assert("text"@[0] == 't');
    assert("image"@[0] == 'i');
    assert("file"@[0] == 'f');
    assert("join"@[0] == 'j');
}

/// The event of a message that was received says from whom it came and what it held.
pub proof fn law_a_received_message_is_told(
    ts_ms: u64,
    own: Seq<char>,
    own_name: Option<Seq<char>>,
    room: Seq<char>,
    relay: Seq<char>,
    m: MessageView,
)
    ensures
        ({
            let e = received(ts_ms, own, own_name, room, relay, m);
            &&& e.dir == "recv"@
            &&& e.ts_ms == ts_ms
            &&& e.remote_device_id == Some(m.device_id)
            &&& e.remote_device_name == m.sender_name
            &&& e.local_device_id == own
            &&& e.local_device_name == own_name
            &&& e.room == room
            &&& e.relay == relay
            &&& e.mime == m.mime
            &&& e.name == m.name
            &&& e.sha256 == m.sha256
            &&& m.payload matches Some(p) ==> e.bytes == p.len()
            &&& m.payload is None ==> e.bytes == 0
        }),
{
}

} // verus!
