//! Messages between nodes and the relay, and their bytes.

use crate::bytes::starts_with;
use crate::wire::{
    deserialize_v0, deserialize_v1, deserialize_v2, opt_payload, opt_text, v0_bytes, v1_bytes,
    v2_bytes, Fields, FieldsView,
};
use vstd::prelude::*;

verus! {

/// What a message carries.
#[derive(Clone, Copy, Debug, PartialEq, Eq, Structural)]
pub enum Kind {
    Text,
    Image,
    File,
    Join,
}

/// The number of a kind on the wire.
pub open spec fn kind_number(k: Kind) -> u32 {
    match k {
        Kind::Text => 0,
        Kind::Image => 1,
        Kind::File => 2,
        Kind::Join => 3,
    }
}

impl Kind {
    /// The number of the kind on the wire.
    pub fn number(self) -> (res: u32)
        ensures
            res == kind_number(self),
    {
        match self {
            Kind::Text => 0,
            Kind::Image => 1,
            Kind::File => 2,
            Kind::Join => 3,
        }
    }

    /// The kind with a number; nothing where no kind has it.
    pub fn from_number(n: u32) -> (res: Option<Kind>)
        ensures
            match res {
                Some(k) => kind_number(k) == n,
                None => forall|k: Kind| kind_number(k) != n,
            },
    {
        if n == 0 {
            Some(Kind::Text)
        } else if n == 1 {
            Some(Kind::Image)
        } else if n == 2 {
            Some(Kind::File)
        } else if n == 3 {
            Some(Kind::Join)
        } else {
            None
        }
    }
}

/// One message.
#[derive(Clone, Debug)]
pub struct Message {
    pub event_id: String,
    pub device_id: String,
    /// The sending device's display name, where it has one. `name` is the display
    /// name of the payload.
    pub sender_name: Option<String>,
    pub ts: u64,
    pub kind: Kind,
    pub room: String,
    pub mime: Option<String>,
    /// The display name of the payload, such as a file's name.
    pub name: Option<String>,
    pub payload: Option<Vec<u8>>,
    pub size: usize,
    pub sha256: Option<String>,
}

/// The contents of a message.
#[verifier::ext_equal]
pub struct MessageView {
    pub event_id: Seq<char>,
    pub device_id: Seq<char>,
    pub sender_name: Option<Seq<char>>,
    pub ts: u64,
    pub kind: Kind,
    pub room: Seq<char>,
    pub mime: Option<Seq<char>>,
    pub name: Option<Seq<char>>,
    pub payload: Option<Seq<u8>>,
    pub size: usize,
    pub sha256: Option<Seq<char>>,
}

impl View for Message {
    type V = MessageView;

    open spec fn view(&self) -> MessageView {
        MessageView {
            event_id: self.event_id@,
            device_id: self.device_id@,
            sender_name: opt_text(self.sender_name),
            ts: self.ts,
            kind: self.kind,
            room: self.room@,
            mime: opt_text(self.mime),
            name: opt_text(self.name),
            payload: opt_payload(self.payload),
            size: self.size,
            sha256: opt_text(self.sha256),
        }
    }
}

/// The fields of a message that every version of the format has.
pub open spec fn fields(m: MessageView) -> FieldsView {
    FieldsView {
        event_id: m.event_id,
        device_id: m.device_id,
        ts: m.ts,
        kind: kind_number(m.kind),
        room: m.room,
        mime: m.mime,
        name: m.name,
        payload: m.payload,
    }
}

/// The four bytes that open a message of the format in use: `MCR2`.
pub open spec fn magic() -> Seq<u8> {
    seq![77u8, 67u8, 82u8, 50u8]
}

/// A message's body in the format in use.
pub open spec fn body_bytes(m: MessageView) -> Seq<u8> {
    v2_bytes(fields(m), m.sender_name, m.size, m.sha256)
}

/// A message's bytes in the format in use.
pub open spec fn message_bytes(m: MessageView) -> Seq<u8> {
    magic() + body_bytes(m)
}

/// A message's bytes in the format without a sender.
pub open spec fn old_bytes(m: MessageView) -> Seq<u8> {
    v1_bytes(fields(m), m.size, m.sha256)
}

/// A message's bytes in the format without sender, size and digest.
pub open spec fn oldest_bytes(m: MessageView) -> Seq<u8> {
    v0_bytes(fields(m))
}

/// The length of an optional payload, zero where there is none.
pub open spec fn payload_len(p: Option<Seq<u8>>) -> nat {
    match p {
        Some(b) => b.len(),
        None => 0,
    }
}

/// `b` begins with some message of the format without a sender.
pub open spec fn begins_with_old(b: Seq<u8>) -> bool {
    exists|m: MessageView| (#[trigger] old_bytes(m)).is_prefix_of(b)
}

/// `b` reads as `m`. Bytes that open with the magic are of the format in use.
/// Others are of the format without a sender where they can be read so, else of
/// the oldest one, where the size is the payload's length.
pub open spec fn reads_as(b: Seq<u8>, m: MessageView) -> bool {
    if magic().is_prefix_of(b) {
        body_bytes(m).is_prefix_of(b.skip(4))
    } else {
        &&& m.sender_name is None
        &&& if begins_with_old(b) {
            old_bytes(m).is_prefix_of(b)
        } else {
            &&& oldest_bytes(m).is_prefix_of(b)
            &&& m.size == payload_len(m.payload)
            &&& m.sha256 is None
        }
    }
}

/// `b` reads as some message.
pub open spec fn readable(b: Seq<u8>) -> bool {
    exists|m: MessageView| #[trigger] reads_as(b, m)
}

/// `bincode::serialize` on a tuple of the fields in the order of the format:
/// fixed-width little-endian integers, lengths in eight bytes, one tag byte before
/// an optional field, nothing between two fields. It does not fail on values held
/// in memory.
#[verifier::external_body]
fn serialize(m: &Message, kind: u32) -> (res: Vec<u8>)
    requires
        kind == kind_number(m.kind),
    ensures
        res@ == body_bytes(m@),
{
    bincode::serialize(
        &(&m.event_id, &m.device_id, &m.sender_name, m.ts, kind, &m.room, &m.mime, &m.name, &m.payload, m.size, &m.sha256),
    ).expect("serialize message")
}

/// Why bytes are no message.
#[derive(Clone, Copy, Debug, PartialEq, Eq, Structural)]
pub enum DecodeError {
    Malformed,
}

/// Fields with a known kind, as a message.
fn assemble(
    f: Fields,
    kind: Kind,
    sender_name: Option<String>,
    size: usize,
    sha256: Option<String>,
) -> (res: Message)
    requires
        kind_number(kind) == f@.kind,
    ensures
        fields(res@) == f@,
        res@.sender_name == opt_text(sender_name),
        res@.size == size,
        res@.sha256 == opt_text(sha256),
{
    Message {
        event_id: f.event_id,
        device_id: f.device_id,
        sender_name,
        ts: f.ts,
        kind,
        room: f.room,
        mime: f.mime,
        name: f.name,
        payload: f.payload,
        size,
        sha256,
    }
}

proof fn lemma_same_kind(k: Kind, j: Kind)
    requires
        kind_number(k) == kind_number(j),
    ensures
        k == j,
{
}

/// Bytes read as at most one message.
pub proof fn law_read_is_unique(b: Seq<u8>, m: MessageView, n: MessageView)
    requires
        b.len() <= usize::MAX,
        reads_as(b, m),
        reads_as(b, n),
    ensures
        m == n,
{
    if magic().is_prefix_of(b) {
        crate::wire::lemma_v2_unique(
            fields(m),
            m.sender_name,
            m.size,
            m.sha256,
            fields(n),
            n.sender_name,
            n.size,
            n.sha256,
            b.skip(4),
        );
    } else if begins_with_old(b) {
        crate::wire::lemma_v1_unique(
            fields(m),
            m.size,
            m.sha256,
            fields(n),
            n.size,
            n.sha256,
            b,
        );
    } else {
        crate::wire::lemma_v0_unique(fields(m), fields(n), b);
    }
    lemma_same_kind(m.kind, n.kind);
}

/// Reading what a message was written as gives that message and no other.
pub proof fn law_write_then_read(m: MessageView, n: MessageView)
    requires
        message_bytes(m).len() <= usize::MAX,
    ensures
        reads_as(message_bytes(m), n) <==> n == m,
{
    let b = message_bytes(m);
    assert(b.take(4) =~= magic());
    assert(b.skip(4) =~= body_bytes(m));
    assert(body_bytes(m).take(body_bytes(m).len() as int) =~= body_bytes(m));
    assert(reads_as(b, m));
    if reads_as(b, n) {
        law_read_is_unique(b, m, n);
    }
}

/// A message written without a sender still reads, and has no sender. Bytes that
/// happen to open with the magic are left out.
pub proof fn law_old_format_reads(m: MessageView)
    requires
        m.sender_name is None,
        !magic().is_prefix_of(old_bytes(m)),
    ensures
        reads_as(old_bytes(m), m),
{
    let b = old_bytes(m);
    assert(b.take(b.len() as int) =~= b);
    assert(old_bytes(m).is_prefix_of(b));
}

/// A message written without sender, size and digest still reads: its size is the
/// payload's length. Bytes that happen to open with the magic are left out.
pub proof fn law_oldest_format_reads(m: MessageView)
    requires
        m.sender_name is None,
        m.sha256 is None,
        m.size == payload_len(m.payload),
        oldest_bytes(m).len() <= usize::MAX,
        !magic().is_prefix_of(oldest_bytes(m)),
    ensures
        reads_as(oldest_bytes(m), m),
{
    let b = oldest_bytes(m);
    assert(b.take(b.len() as int) =~= b);
    assert forall|n: MessageView| !(#[trigger] old_bytes(n)).is_prefix_of(b) by {
        crate::wire::lemma_v0_is_no_v1(fields(m), fields(n), n.size, n.sha256);
    }
}

impl Message {
    /// The message's bytes, in the format in use.
    pub fn to_bytes(&self) -> (res: Vec<u8>)
        ensures
            res@ == message_bytes(self@),
            reads_as(res@, self@),
    {
        let body = serialize(self, self.kind.number());
        let mut out: Vec<u8> = vec![77u8, 67u8, 82u8, 50u8];
        let mut rest = body;
        out.append(&mut rest);
        assert(out@ =~= message_bytes(self@));
        assert(out@.len() == out.len());
        proof {
            law_write_then_read(self@, self@);
        }
        out
    }

    /// Reads a message from bytes of any version of the format.
    pub fn try_from_bytes(b: &[u8]) -> (res: Result<Message, DecodeError>)
        ensures
            match res {
                Ok(m) => reads_as(b@, m@),
                Err(_) => !readable(b@),
            },
    {
        let n: usize = b.len();
        let head: Vec<u8> = vec![77u8, 67u8, 82u8, 50u8];
        assert(head@ =~= magic());
        if starts_with(b, head.as_slice()) {
            return Self::read_body(vstd::slice::slice_subrange(b, 4, n));
        }
        match deserialize_v1(b) {
            Ok(t) => {
                let ghost f = t.0@;
                let ghost size = t.1;
                let ghost sha = opt_text(t.2);
                if let Some(kind) = Kind::from_number(t.0.kind) {
                    let m = assemble(t.0, kind, None, t.1, t.2);
                    assert(old_bytes(m@).is_prefix_of(b@));
                    return Ok(m);
                }
                proof {
                    assert forall|n: MessageView| !(#[trigger] old_bytes(n)).is_prefix_of(b@) by {
                        if old_bytes(n).is_prefix_of(b@) {
                            crate::wire::lemma_v1_unique(
                                f,
                                size,
                                sha,
                                fields(n),
                                n.size,
                                n.sha256,
                                b@,
                            );
                        }
                    }
                }
            },
            Err(_) => {},
        }
        assert(!begins_with_old(b@));
        match deserialize_v0(b) {
            Ok(f) => {
                let ghost seen = f@;
                if let Some(kind) = Kind::from_number(f.kind) {
                    let size: usize = match &f.payload {
                        Some(p) => p.len(),
                        None => 0,
                    };
                    return Ok(assemble(f, kind, None, size, None));
                }
                proof {
                    assert forall|n: MessageView| !(#[trigger] reads_as(b@, n)) by {
                        if reads_as(b@, n) {
                            crate::wire::lemma_v0_unique(seen, fields(n), b@);
                        }
                    }
                }
                Err(DecodeError::Malformed)
            },
            Err(_) => Err(DecodeError::Malformed),
        }
    }

    /// Reads the body of a message of the format in use.
    fn read_body(b: &[u8]) -> (res: Result<Message, DecodeError>)
        ensures
            match res {
                Ok(m) => body_bytes(m@).is_prefix_of(b@),
                Err(_) => forall|m: MessageView| !(#[trigger] body_bytes(m)).is_prefix_of(b@),
            },
    {
        let n: usize = b.len();
        assert(b@.len() == n);
        match deserialize_v2(b) {
            Ok(t) => {
                let ghost f = t.0@;
                let ghost sender = opt_text(t.1);
                let ghost size = t.2;
                let ghost sha = opt_text(t.3);
                if let Some(kind) = Kind::from_number(t.0.kind) {
                    return Ok(assemble(t.0, kind, t.1, t.2, t.3));
                }
                proof {
                    assert forall|n: MessageView| !(#[trigger] body_bytes(n)).is_prefix_of(b@) by {
                        if body_bytes(n).is_prefix_of(b@) {
                            crate::wire::lemma_v2_unique(
                                f,
                                sender,
                                size,
                                sha,
                                fields(n),
                                n.sender_name,
                                n.size,
                                n.sha256,
                                b@,
                            );
                        }
                    }
                }
                Err(DecodeError::Malformed)
            },
            Err(_) => Err(DecodeError::Malformed),
        }
    }

    /// Reads a message from bytes that hold one.
    pub fn from_bytes(b: &[u8]) -> (res: Message)
        requires
            readable(b@),
        ensures
            reads_as(b@, res@),
    {
        match Self::try_from_bytes(b) {
            Ok(m) => m,
            Err(_) => vstd::pervasive::unreached(),
        }
    }

    /// A message with its stamp, its sender's identifier, its kind and its room, and
    /// nothing else.
    fn stamped(event_id: String, ts: u64, device_id: &str, kind: Kind, room: &str) -> (res: Message)
        ensures
            res@ == bare(event_id@, ts, device_id@, kind, room@),
    {
        Message {
            event_id,
            device_id: device_id.to_string(),
            sender_name: None,
            ts,
            kind,
            room: room.to_string(),
            mime: None,
            name: None,
            payload: None,
            size: 0,
            sha256: None,
        }
    }

    /// The join message with a given identifier and time.
    pub fn join_at(event_id: String, ts: u64, device_id: &str, room: &str) -> (res: Message)
        ensures
            res@ == join_view(event_id@, ts, device_id@, room@),
    {
        Self::stamped(event_id, ts, device_id, Kind::Join, room)
    }

    /// A new join message.
    pub fn new_join(device_id: &str, room: &str) -> (res: Message)
        ensures
            is_random_id(res.event_id@),
            res@ == join_view(res.event_id@, res.ts, device_id@, room@),
    {
        Self::join_at(new_event_id(), now_ms(), device_id, room)
    }

    /// The text message with a given identifier and time.
    pub fn text_at(event_id: String, ts: u64, device_id: &str, room: &str, text: &str) -> (res:
        Message)
        ensures
            res@ == text_view(event_id@, ts, device_id@, room@, text@),
    {
        let mut m = Self::stamped(event_id, ts, device_id, Kind::Text, room);
        let bytes = text.as_bytes_vec();
        m.mime = Some("text/plain;charset=utf-8".to_string());
        m.size = bytes.len();
        m.payload = Some(bytes);
        m
    }

    /// A new text message.
    pub fn new_text(device_id: &str, room: &str, text: &str) -> (res: Message)
        ensures
            is_random_id(res.event_id@),
            res@ == text_view(res.event_id@, res.ts, device_id@, room@, text@),
    {
        Self::text_at(new_event_id(), now_ms(), device_id, room, text)
    }

    /// The image message with a given identifier and time.
    pub fn image_at(
        event_id: String,
        ts: u64,
        device_id: &str,
        room: &str,
        mime: &str,
        bytes: Vec<u8>,
    ) -> (res: Message)
        ensures
            res@ == image_view(event_id@, ts, device_id@, room@, mime@, bytes@),
    {
        let mut m = Self::stamped(event_id, ts, device_id, Kind::Image, room);
        m.mime = Some(mime.to_string());
        m.size = bytes.len();
        m.payload = Some(bytes);
        m
    }

    /// A new image message.
    pub fn new_image(device_id: &str, room: &str, mime: &str, bytes: Vec<u8>) -> (res: Message)
        ensures
            is_random_id(res.event_id@),
            res@ == image_view(res.event_id@, res.ts, device_id@, room@, mime@, bytes@),
    {
        Self::image_at(new_event_id(), now_ms(), device_id, room, mime, bytes)
    }

    /// The file message with a given identifier and time.
    pub fn file_at(
        event_id: String,
        ts: u64,
        device_id: &str,
        room: &str,
        name: &str,
        mime: &str,
        bytes: Vec<u8>,
    ) -> (res: Message)
        ensures
            res@ == file_view(event_id@, ts, device_id@, room@, name@, mime@, bytes@),
    {
        let mut m = Self::stamped(event_id, ts, device_id, Kind::File, room);
        m.mime = Some(mime.to_string());
        m.name = Some(name.to_string());
        m.size = bytes.len();
        m.payload = Some(bytes);
        m
    }

    /// A new file message.
    pub fn new_file(device_id: &str, room: &str, name: &str, mime: &str, bytes: Vec<u8>) -> (res:
        Message)
        ensures
            is_random_id(res.event_id@),
            res@ == file_view(res.event_id@, res.ts, device_id@, room@, name@, mime@, bytes@),
    {
        Self::file_at(new_event_id(), now_ms(), device_id, room, name, mime, bytes)
    }
}

/// A message with a stamp, a sender's identifier, a kind and a room, and nothing
/// else.
pub open spec fn bare(
    event_id: Seq<char>,
    ts: u64,
    device_id: Seq<char>,
    kind: Kind,
    room: Seq<char>,
) -> MessageView {
    MessageView {
        event_id,
        device_id,
        sender_name: None,
        ts,
        kind,
        room,
        mime: None,
        name: None,
        payload: None,
        size: 0,
        sha256: None,
    }
}

/// A join message.
pub open spec fn join_view(
    event_id: Seq<char>,
    ts: u64,
    device_id: Seq<char>,
    room: Seq<char>,
) -> MessageView {
    bare(event_id, ts, device_id, Kind::Join, room)
}

/// A text message: the payload is the text in UTF-8.
pub open spec fn text_view(
    event_id: Seq<char>,
    ts: u64,
    device_id: Seq<char>,
    room: Seq<char>,
    text: Seq<char>,
) -> MessageView {
    MessageView {
        mime: Some("text/plain;charset=utf-8"@),
        payload: Some(vstd::utf8::encode_utf8(text)),
        size: vstd::utf8::encode_utf8(text).len() as usize,
        ..bare(event_id, ts, device_id, Kind::Text, room)
    }
}

/// An image message.
pub open spec fn image_view(
    event_id: Seq<char>,
    ts: u64,
    device_id: Seq<char>,
    room: Seq<char>,
    mime: Seq<char>,
    bytes: Seq<u8>,
) -> MessageView {
    MessageView {
        mime: Some(mime),
        payload: Some(bytes),
        size: bytes.len() as usize,
        ..bare(event_id, ts, device_id, Kind::Image, room)
    }
}

/// A file message.
pub open spec fn file_view(
    event_id: Seq<char>,
    ts: u64,
    device_id: Seq<char>,
    room: Seq<char>,
    name: Seq<char>,
    mime: Seq<char>,
    bytes: Seq<u8>,
) -> MessageView {
    MessageView {
        mime: Some(mime),
        name: Some(name),
        payload: Some(bytes),
        size: bytes.len() as usize,
        ..bare(event_id, ts, device_id, Kind::File, room)
    }
}

/// A lower-case hexadecimal digit.
pub open spec fn is_hex(c: char) -> bool {
    ('0' <= c <= '9') || ('a' <= c <= 'f')
}

/// The text of a random (version 4) identifier: 32 hexadecimal digits in groups of
/// 8, 4, 4, 4 and 12 with hyphens between them, the version and the variant set.
pub open spec fn is_random_id(s: Seq<char>) -> bool {
    &&& s.len() == 36
    &&& forall|i: int|
        0 <= i < 36 ==> if i == 8 || i == 13 || i == 18 || i == 23 {
            #[trigger] s[i] == '-'
        } else {
            is_hex(s[i])
        }
    &&& s[14] == '4'
    &&& (s[19] == '8' || s[19] == '9' || s[19] == 'a' || s[19] == 'b')
}

/// `uuid::Uuid::new_v4` as text: a fresh random identifier. Which one is left to
/// chance; where the system has no source of random bytes the call does not return.
#[verifier::external_body]
pub(crate) fn new_event_id() -> (res: String)
    ensures
        is_random_id(res@),
{
    uuid::Uuid::new_v4().to_string()
}

/// `SystemTime::now`: the nanoseconds since the start of 1970, or nothing where the
/// clock stands before it. Nothing is known of the value.
#[verifier::external_body]
pub(crate) fn system_nanos() -> (res: Option<u128>)
{
    std::time::SystemTime::now()
        .duration_since(std::time::UNIX_EPOCH)
        .ok()
        .map(|d| d.as_nanos())
}

/// A clock reading in milliseconds, in 64 bits; zero for a clock before 1970.
pub open spec fn clock_ms(nanos: Option<u128>) -> u64 {
    match nanos {
        Some(n) => ((n / 1_000_000) % 0x1_0000_0000_0000_0000) as u64,
        None => 0,
    }
}

/// A clock reading in milliseconds.
pub fn ms_of_nanos(nanos: Option<u128>) -> (res: u64)
    ensures
        res == clock_ms(nanos),
{
    match nanos {
        Some(n) => ((n / 1_000_000) % 0x1_0000_0000_0000_0000) as u64,
        None => 0,
    }
}

/// The present time in milliseconds since the start of 1970.
pub fn now_ms() -> (res: u64)
    ensures
        exists|nanos: Option<u128>| res == #[trigger] clock_ms(nanos),
{
    ms_of_nanos(system_nanos())
}

/// What a text message is written as is read as a text message of the same device and room,
/// with the text as its payload and the payload's length as its size.
pub proof fn law_a_text_arrives(
    event_id: Seq<char>,
    ts: u64,
    device_id: Seq<char>,
    room: Seq<char>,
    text: Seq<char>,
    m: MessageView,
)
    requires
        message_bytes(text_view(event_id, ts, device_id, room, text)).len() <= usize::MAX,
        reads_as(message_bytes(text_view(event_id, ts, device_id, room, text)), m),
    ensures
        m.kind == Kind::Text,
        m.event_id == event_id,
        m.ts == ts,
        m.device_id == device_id,
        m.room == room,
        m.mime == Some("text/plain;charset=utf-8"@),
        m.payload == Some(vstd::utf8::encode_utf8(text)),
        m.size == vstd::utf8::encode_utf8(text).len() as usize,
        m.name is None && m.sender_name is None && m.sha256 is None,
{
    law_write_then_read(text_view(event_id, ts, device_id, room, text), m);
}

/// What an image message is written as is read as an image message of the same device and
/// room, with the image's type and bytes.
pub proof fn law_an_image_arrives(
    event_id: Seq<char>,
    ts: u64,
    device_id: Seq<char>,
    room: Seq<char>,
    mime: Seq<char>,
    bytes: Seq<u8>,
    m: MessageView,
)
    requires
        message_bytes(image_view(event_id, ts, device_id, room, mime, bytes)).len() <= usize::MAX,
        reads_as(message_bytes(image_view(event_id, ts, device_id, room, mime, bytes)), m),
    ensures
        m.kind == Kind::Image,
        m.event_id == event_id,
        m.ts == ts,
        m.device_id == device_id,
        m.room == room,
        m.mime == Some(mime),
        m.payload == Some(bytes),
        m.size == bytes.len() as usize,
        m.name is None && m.sender_name is None && m.sha256 is None,
{
    law_write_then_read(image_view(event_id, ts, device_id, room, mime, bytes), m);
}

/// What a file message is written as is read as a file message of the same device and room,
/// with the file's name, type and bytes.
pub proof fn law_a_file_arrives(
    event_id: Seq<char>,
    ts: u64,
    device_id: Seq<char>,
    room: Seq<char>,
    name: Seq<char>,
    mime: Seq<char>,
    bytes: Seq<u8>,
    m: MessageView,
)
    requires
        message_bytes(file_view(event_id, ts, device_id, room, name, mime, bytes)).len()
            <= usize::MAX,
        reads_as(message_bytes(file_view(event_id, ts, device_id, room, name, mime, bytes)), m),
    ensures
        m.kind == Kind::File,
        m.event_id == event_id,
        m.ts == ts,
        m.device_id == device_id,
        m.room == room,
        m.name == Some(name),
        m.mime == Some(mime),
        m.payload == Some(bytes),
        m.size == bytes.len() as usize,
        m.sender_name is None && m.sha256 is None,
{
    law_write_then_read(file_view(event_id, ts, device_id, room, name, mime, bytes), m);
}

/// What a join message is written as is read as a join of the same device and room, with
/// nothing in it.
pub proof fn law_a_join_arrives(
    event_id: Seq<char>,
    ts: u64,
    device_id: Seq<char>,
    room: Seq<char>,
    m: MessageView,
)
    requires
        message_bytes(join_view(event_id, ts, device_id, room)).len() <= usize::MAX,
        reads_as(message_bytes(join_view(event_id, ts, device_id, room)), m),
    ensures
        m.kind == Kind::Join,
        m.event_id == event_id,
        m.ts == ts,
        m.device_id == device_id,
        m.room == room,
        m.payload is None && m.mime is None && m.name is None && m.sender_name is None
            && m.sha256 is None,
        m.size == 0,
{
    law_write_then_read(join_view(event_id, ts, device_id, room), m);
}

/// Clock readings are in milliseconds: a million nanoseconds more are one more, and less than
/// a million none, as long as they fit in 64 bits.
pub proof fn law_clock_counts_milliseconds(ms: u64, rest: u128)
    requires
        rest < 1_000_000,
    ensures
        clock_ms(Some((ms * 1_000_000 + rest) as u128)) == ms,
        clock_ms(None) == 0,
{
    let n: u128 = (ms * 1_000_000 + rest) as u128;
    assert(n == ms * 1_000_000 + rest);
    assert(n / 1_000_000 == ms as u128);
}

/// Every kind has a number of its own.
pub proof fn law_kinds_have_numbers_of_their_own(a: Kind, b: Kind)
    requires
        kind_number(a) == kind_number(b),
    ensures
        a == b,
{
}

/// Every message that was written can be read, whatever stands behind it, and so can whatever
/// reads as some message; what reads as none cannot.
pub proof fn law_what_is_written_can_be_read(m: MessageView, rest: Seq<u8>, b: Seq<u8>)
    ensures
        readable(message_bytes(m)),
        readable(message_bytes(m) + rest),
        reads_as(b, m) ==> readable(b),
        !readable(b) ==> !reads_as(b, m),
{
    let w = message_bytes(m);
    let l = w + rest;
    assert(w.take(4) =~= magic());
    assert(w.skip(4) =~= body_bytes(m));
    assert(body_bytes(m).take(body_bytes(m).len() as int) =~= body_bytes(m));
    assert(reads_as(w, m));
    assert(l.take(4) =~= magic());
    assert(l.skip(4).take(body_bytes(m).len() as int) =~= body_bytes(m));
    assert(reads_as(l, m));
}

} // verus!
