//! The bytes of a message body: strings and byte strings with their length in
//! front, optional fields behind a tag, integers least significant byte first.

use crate::number::{le_bytes, le_value};
use vstd::prelude::*;
use vstd::utf8::encode_utf8;

verus! {

/// A text field: the number of its UTF-8 bytes in eight bytes, then the bytes.
pub open spec fn text_bytes(s: Seq<char>) -> Seq<u8> {
    le_bytes(encode_utf8(s).len(), 8) + encode_utf8(s)
}

/// An optional text field: a zero byte, or a one byte and the text.
pub open spec fn opt_text_bytes(o: Option<Seq<char>>) -> Seq<u8> {
    match o {
        Some(s) => seq![1u8] + text_bytes(s),
        None => seq![0u8],
    }
}

/// An optional byte string: a zero byte, or a one byte, the length and the bytes.
pub open spec fn opt_payload_bytes(o: Option<Seq<u8>>) -> Seq<u8> {
    match o {
        Some(p) => seq![1u8] + (le_bytes(p.len(), 8) + p),
        None => seq![0u8],
    }
}

/// The text of an optional string.
pub open spec fn opt_text(o: Option<String>) -> Option<Seq<char>> {
    match o {
        Some(s) => Some(s@),
        None => None,
    }
}

/// The bytes of an optional byte string.
pub open spec fn opt_payload(o: Option<Vec<u8>>) -> Option<Seq<u8>> {
    match o {
        Some(p) => Some(p@),
        None => None,
    }
}

/// The fields that every version of the format has.
#[verifier::ext_equal]
pub struct FieldsView {
    pub event_id: Seq<char>,
    pub device_id: Seq<char>,
    pub ts: u64,
    pub kind: u32,
    pub room: Seq<char>,
    pub mime: Option<Seq<char>>,
    pub name: Option<Seq<char>>,
    pub payload: Option<Seq<u8>>,
}

/// The fields that every version of the format has, with the kind of message as
/// its number.
pub struct Fields {
    pub event_id: String,
    pub device_id: String,
    pub ts: u64,
    pub kind: u32,
    pub room: String,
    pub mime: Option<String>,
    pub name: Option<String>,
    pub payload: Option<Vec<u8>>,
}

impl View for Fields {
    type V = FieldsView;

    open spec fn view(&self) -> FieldsView {
        FieldsView {
            event_id: self.event_id@,
            device_id: self.device_id@,
            ts: self.ts,
            kind: self.kind,
            room: self.room@,
            mime: opt_text(self.mime),
            name: opt_text(self.name),
            payload: opt_payload(self.payload),
        }
    }
}

/// The identifiers, which stand first.
pub open spec fn id_bytes(f: FieldsView) -> Seq<u8> {
    text_bytes(f.event_id) + text_bytes(f.device_id)
}

/// What follows the identifiers.
pub open spec fn content_bytes(f: FieldsView) -> Seq<u8> {
    le_bytes(f.ts as nat, 8) + (le_bytes(f.kind as nat, 4) + (text_bytes(f.room) + (opt_text_bytes(
        f.mime,
    ) + (opt_text_bytes(f.name) + opt_payload_bytes(f.payload)))))
}

/// The size and the digest, which stand last.
pub open spec fn tail_bytes(size: usize, sha256: Option<Seq<char>>) -> Seq<u8> {
    le_bytes(size as nat, 8) + opt_text_bytes(sha256)
}

/// The oldest format: no size, no digest, no sender.
pub open spec fn v0_bytes(f: FieldsView) -> Seq<u8> {
    id_bytes(f) + content_bytes(f)
}

/// The format with size and digest but no sender.
pub open spec fn v1_bytes(f: FieldsView, size: usize, sha256: Option<Seq<char>>) -> Seq<u8> {
    v0_bytes(f) + tail_bytes(size, sha256)
}

/// The format in use: the sender's name follows the identifiers.
pub open spec fn v2_bytes(
    f: FieldsView,
    sender: Option<Seq<char>>,
    size: usize,
    sha256: Option<Seq<char>>,
) -> Seq<u8> {
    id_bytes(f) + (opt_text_bytes(sender) + (content_bytes(f) + tail_bytes(size, sha256)))
}

#[verifier::external_type_specification]
#[verifier::external_body]
pub struct ExErrorKind(bincode::ErrorKind);

/// `bincode::deserialize` of the tuple in use. It succeeds exactly on bytes that
/// begin with the encoding of some tuple, and gives that tuple; bytes after it are
/// allowed.
#[verifier::external_body]
pub(crate) fn deserialize_v2(b: &[u8]) -> (res: Result<
    (Fields, Option<String>, usize, Option<String>),
    bincode::Error,
>)
    ensures
        match res {
            Ok(t) => v2_bytes(t.0@, opt_text(t.1), t.2, opt_text(t.3)).is_prefix_of(b@),
            Err(_) => forall|f: FieldsView, sender: Option<Seq<char>>, size: usize, sha: Option<
                Seq<char>,
            >|
                !(#[trigger] v2_bytes(f, sender, size, sha)).is_prefix_of(b@),
        },
{
    bincode::deserialize::<(String, String, Option<String>, u64, u32, String, Option<String>, Option<String>, Option<Vec<u8>>, usize, Option<String>)>(b)
        .map(|t| (
            Fields { event_id: t.0, device_id: t.1, ts: t.3, kind: t.4, room: t.5, mime: t.6, name: t.7, payload: t.8 },
            t.2,
            t.9,
            t.10,
        ))
}

/// `bincode::deserialize` of the tuple without a sender: as above.
#[verifier::external_body]
pub(crate) fn deserialize_v1(b: &[u8]) -> (res: Result<
    (Fields, usize, Option<String>),
    bincode::Error,
>)
    ensures
        match res {
            Ok(t) => v1_bytes(t.0@, t.1, opt_text(t.2)).is_prefix_of(b@),
            Err(_) => forall|f: FieldsView, size: usize, sha: Option<Seq<char>>|
                !(#[trigger] v1_bytes(f, size, sha)).is_prefix_of(b@),
        },
{
    bincode::deserialize::<(String, String, u64, u32, String, Option<String>, Option<String>, Option<Vec<u8>>, usize, Option<String>)>(b)
        .map(|t| (
            Fields { event_id: t.0, device_id: t.1, ts: t.2, kind: t.3, room: t.4, mime: t.5, name: t.6, payload: t.7 },
            t.8,
            t.9,
        ))
}

/// `bincode::deserialize` of the tuple without sender, size and digest: as above.
#[verifier::external_body]
pub(crate) fn deserialize_v0(b: &[u8]) -> (res: Result<Fields, bincode::Error>)
    ensures
        match res {
            Ok(f) => v0_bytes(f@).is_prefix_of(b@),
            Err(_) => forall|f: FieldsView| !(#[trigger] v0_bytes(f)).is_prefix_of(b@),
        },
{
    bincode::deserialize::<(String, String, u64, u32, String, Option<String>, Option<String>, Option<Vec<u8>>)>(b)
        .map(|t| Fields {
            event_id: t.0,
            device_id: t.1,
            ts: t.2,
            kind: t.3,
            room: t.4,
            mime: t.5,
            name: t.6,
            payload: t.7,
        })
}

/// The first number that `k` bytes cannot hold.
pub open spec fn beyond(k: nat) -> nat
    decreases k,
{
    if k == 0 {
        1
    } else {
        256 * beyond((k - 1) as nat)
    }
}

proof fn lemma_assoc(a: Seq<u8>, b: Seq<u8>, c: Seq<u8>)
    ensures
        (a + b) + c == a + (b + c),
{
    assert((a + b) + c =~= a + (b + c));
}

proof fn lemma_beyond()
    ensures
        beyond(4) == 0x1_0000_0000,
        beyond(8) == 0x1_0000_0000_0000_0000,
{
    reveal_with_fuel(beyond, 9);
}

proof fn lemma_le_len(n: nat, k: nat)
    ensures
        le_bytes(n, k).len() == k,
    decreases k,
{
    if k > 0 {
        lemma_le_len(n / 256, (k - 1) as nat);
    }
}

proof fn lemma_le_value(n: nat, k: nat)
    requires
        n < beyond(k),
    ensures
        le_value(le_bytes(n, k)) == n,
    decreases k,
{
    if k > 0 {
        lemma_le_value(n / 256, (k - 1) as nat);
        lemma_le_len(n / 256, (k - 1) as nat);
        assert(le_bytes(n, k).drop_first() =~= le_bytes(n / 256, (k - 1) as nat));
    }
}

/// Two numbers at the head of the same bytes are the same number.
proof fn lemma_le_split(a: nat, b: nat, k: nat, x: Seq<u8>, y: Seq<u8>)
    requires
        a < beyond(k),
        b < beyond(k),
        le_bytes(a, k) + x == le_bytes(b, k) + y,
    ensures
        a == b,
        x == y,
{
    lemma_le_len(a, k);
    lemma_le_len(b, k);
    let l = le_bytes(a, k) + x;
    assert(l.take(k as int) =~= le_bytes(a, k));
    assert(l.take(k as int) =~= le_bytes(b, k));
    assert(l.skip(k as int) =~= x);
    assert((le_bytes(b, k) + y).skip(k as int) =~= y);
    lemma_le_value(a, k);
    lemma_le_value(b, k);
}

/// Two byte strings with their lengths at the head of the same bytes are equal.
proof fn lemma_payload_split(a: Seq<u8>, b: Seq<u8>, x: Seq<u8>, y: Seq<u8>)
    requires
        a.len() < beyond(8),
        b.len() < beyond(8),
        (le_bytes(a.len(), 8) + a) + x == (le_bytes(b.len(), 8) + b) + y,
    ensures
        a == b,
        x == y,
{
    assert((le_bytes(a.len(), 8) + a) + x =~= le_bytes(a.len(), 8) + (a + x));
    assert((le_bytes(b.len(), 8) + b) + y =~= le_bytes(b.len(), 8) + (b + y));
    lemma_le_split(a.len(), b.len(), 8, a + x, b + y);
    assert((a + x).take(a.len() as int) =~= a);
    assert((b + y).take(a.len() as int) =~= b);
    assert((a + x).skip(a.len() as int) =~= x);
    assert((b + y).skip(a.len() as int) =~= y);
}

proof fn lemma_text_split(a: Seq<char>, b: Seq<char>, x: Seq<u8>, y: Seq<u8>)
    requires
        encode_utf8(a).len() < beyond(8),
        encode_utf8(b).len() < beyond(8),
        text_bytes(a) + x == text_bytes(b) + y,
    ensures
        a == b,
        x == y,
{
    lemma_payload_split(encode_utf8(a), encode_utf8(b), x, y);
    vstd::utf8::encode_utf8_decode_utf8(a);
    vstd::utf8::encode_utf8_decode_utf8(b);
}

/// The size of an optional text field fits in eight bytes.
pub open spec fn opt_text_fits(o: Option<Seq<char>>) -> bool {
    o is Some ==> encode_utf8(o->0).len() < beyond(8)
}

proof fn lemma_opt_text_split(
    a: Option<Seq<char>>,
    b: Option<Seq<char>>,
    x: Seq<u8>,
    y: Seq<u8>,
)
    requires
        opt_text_fits(a),
        opt_text_fits(b),
        opt_text_bytes(a) + x == opt_text_bytes(b) + y,
    ensures
        a == b,
        x == y,
{
    let l = opt_text_bytes(a) + x;
    let r = opt_text_bytes(b) + y;
    assert(l[0] == opt_text_bytes(a)[0]);
    assert(r[0] == opt_text_bytes(b)[0]);
    if a is Some {
        assert(l.skip(1) =~= text_bytes(a->0) + x);
        assert(r.skip(1) =~= text_bytes(b->0) + y);
        lemma_text_split(a->0, b->0, x, y);
    } else {
        assert(l.skip(1) =~= x);
        assert(r.skip(1) =~= y);
    }
}

proof fn lemma_opt_payload_split(
    a: Option<Seq<u8>>,
    b: Option<Seq<u8>>,
    x: Seq<u8>,
    y: Seq<u8>,
)
    requires
        a is Some ==> a->0.len() < beyond(8),
        b is Some ==> b->0.len() < beyond(8),
        opt_payload_bytes(a) + x == opt_payload_bytes(b) + y,
    ensures
        a == b,
        x == y,
{
    let l = opt_payload_bytes(a) + x;
    let r = opt_payload_bytes(b) + y;
    assert(l[0] == opt_payload_bytes(a)[0]);
    assert(r[0] == opt_payload_bytes(b)[0]);
    if a is Some {
        assert(l.skip(1) =~= (le_bytes(a->0.len(), 8) + a->0) + x);
        assert(r.skip(1) =~= (le_bytes(b->0.len(), 8) + b->0) + y);
        lemma_payload_split(a->0, b->0, x, y);
    } else {
        assert(l.skip(1) =~= x);
        assert(r.skip(1) =~= y);
    }
}

/// Every length in the fields fits in eight bytes.
pub open spec fn fields_fit(f: FieldsView) -> bool {
    &&& encode_utf8(f.event_id).len() < beyond(8)
    &&& encode_utf8(f.device_id).len() < beyond(8)
    &&& encode_utf8(f.room).len() < beyond(8)
    &&& opt_text_fits(f.mime)
    &&& opt_text_fits(f.name)
    &&& f.payload is Some ==> f.payload->0.len() < beyond(8)
}

/// Bytes that do not exceed what memory can hold have lengths that fit.
pub proof fn lemma_fit(f: FieldsView, b: Seq<u8>)
    requires
        id_bytes(f).len() + content_bytes(f).len() <= b.len(),
        b.len() < beyond(8),
    ensures
        fields_fit(f),
{
    lemma_le_len(f.ts as nat, 8);
    lemma_le_len(f.kind as nat, 4);
    lemma_le_len(encode_utf8(f.event_id).len(), 8);
}

proof fn lemma_id_split(f: FieldsView, g: FieldsView, x: Seq<u8>, y: Seq<u8>)
    requires
        fields_fit(f),
        fields_fit(g),
        id_bytes(f) + x == id_bytes(g) + y,
    ensures
        f.event_id == g.event_id,
        f.device_id == g.device_id,
        x == y,
{
    assert(id_bytes(f) + x =~= text_bytes(f.event_id) + (text_bytes(f.device_id) + x));
    assert(id_bytes(g) + y =~= text_bytes(g.event_id) + (text_bytes(g.device_id) + y));
    lemma_text_split(
        f.event_id,
        g.event_id,
        text_bytes(f.device_id) + x,
        text_bytes(g.device_id) + y,
    );
    lemma_text_split(f.device_id, g.device_id, x, y);
}

/// The content followed by `x`, one field after the other.
proof fn lemma_content_then(f: FieldsView, x: Seq<u8>)
    ensures
        content_bytes(f) + x == le_bytes(f.ts as nat, 8) + (le_bytes(f.kind as nat, 4) + (
        text_bytes(f.room) + (opt_text_bytes(f.mime) + (opt_text_bytes(f.name) + (opt_payload_bytes(
            f.payload,
        ) + x))))),
{
    let p = opt_payload_bytes(f.payload);
    let n = opt_text_bytes(f.name);
    let m = opt_text_bytes(f.mime);
    let r = text_bytes(f.room);
    let k = le_bytes(f.kind as nat, 4);
    let t = le_bytes(f.ts as nat, 8);
    lemma_assoc(n, p, x);
    lemma_assoc(m, n + p, x);
    lemma_assoc(r, m + (n + p), x);
    lemma_assoc(k, r + (m + (n + p)), x);
    lemma_assoc(t, k + (r + (m + (n + p))), x);
}

#[verifier::spinoff_prover]
proof fn lemma_content_split(f: FieldsView, g: FieldsView, x: Seq<u8>, y: Seq<u8>)
    requires
        fields_fit(f),
        fields_fit(g),
        content_bytes(f) + x == content_bytes(g) + y,
    ensures
        f.ts == g.ts,
        f.kind == g.kind,
        f.room == g.room,
        f.mime == g.mime,
        f.name == g.name,
        f.payload == g.payload,
        x == y,
{
    lemma_beyond();
    let f5 = opt_payload_bytes(f.payload) + x;
    let g5 = opt_payload_bytes(g.payload) + y;
    let f4 = opt_text_bytes(f.name) + f5;
    let g4 = opt_text_bytes(g.name) + g5;
    let f3 = opt_text_bytes(f.mime) + f4;
    let g3 = opt_text_bytes(g.mime) + g4;
    let f2 = text_bytes(f.room) + f3;
    let g2 = text_bytes(g.room) + g3;
    let f1 = le_bytes(f.kind as nat, 4) + f2;
    let g1 = le_bytes(g.kind as nat, 4) + g2;
    lemma_content_then(f, x);
    lemma_content_then(g, y);
    lemma_le_split(f.ts as nat, g.ts as nat, 8, f1, g1);
    lemma_le_split(f.kind as nat, g.kind as nat, 4, f2, g2);
    lemma_text_split(f.room, g.room, f3, g3);
    lemma_opt_text_split(f.mime, g.mime, f4, g4);
    lemma_opt_text_split(f.name, g.name, f5, g5);
    lemma_opt_payload_split(f.payload, g.payload, x, y);
}

proof fn lemma_tail_split(
    s: usize,
    a: Option<Seq<char>>,
    t: usize,
    b: Option<Seq<char>>,
    x: Seq<u8>,
    y: Seq<u8>,
)
    requires
        opt_text_fits(a),
        opt_text_fits(b),
        tail_bytes(s, a) + x == tail_bytes(t, b) + y,
    ensures
        s == t,
        a == b,
        x == y,
{
    lemma_beyond();
    assert(tail_bytes(s, a) + x =~= le_bytes(s as nat, 8) + (opt_text_bytes(a) + x));
    assert(tail_bytes(t, b) + y =~= le_bytes(t as nat, 8) + (opt_text_bytes(b) + y));
    lemma_le_split(s as nat, t as nat, 8, opt_text_bytes(a) + x, opt_text_bytes(b) + y);
    lemma_opt_text_split(a, b, x, y);
}

/// `b` begins with the encoding `e`: what follows it.
spec fn after(e: Seq<u8>, b: Seq<u8>) -> Seq<u8> {
    b.skip(e.len() as int)
}

proof fn lemma_after(e: Seq<u8>, b: Seq<u8>)
    requires
        e.is_prefix_of(b),
    ensures
        e + after(e, b) == b,
{
    assert(e + after(e, b) =~= b);
}

/// An encoding followed by `x`, one part after the other.
proof fn lemma_v2_then(
    f: FieldsView,
    s: Option<Seq<char>>,
    z: usize,
    h: Option<Seq<char>>,
    x: Seq<u8>,
)
    ensures
        v2_bytes(f, s, z, h) + x == id_bytes(f) + (opt_text_bytes(s) + (content_bytes(f) + (
        tail_bytes(z, h) + x))),
{
    let c = content_bytes(f);
    let t = tail_bytes(z, h);
    lemma_assoc(c, t, x);
    lemma_assoc(opt_text_bytes(s), c + t, x);
    lemma_assoc(id_bytes(f), opt_text_bytes(s) + (c + t), x);
}

/// Bytes begin with the encoding of at most one message of the format in use.
pub proof fn lemma_v2_unique(
    f: FieldsView,
    fs: Option<Seq<char>>,
    fz: usize,
    fh: Option<Seq<char>>,
    g: FieldsView,
    gs: Option<Seq<char>>,
    gz: usize,
    gh: Option<Seq<char>>,
    b: Seq<u8>,
)
    requires
        b.len() < 0x1_0000_0000_0000_0000,
        v2_bytes(f, fs, fz, fh).is_prefix_of(b),
        v2_bytes(g, gs, gz, gh).is_prefix_of(b),
    ensures
        f == g,
        fs == gs,
        fz == gz,
        fh == gh,
{
    lemma_beyond();
    lemma_fit(f, b);
    lemma_fit(g, b);
    let e = v2_bytes(f, fs, fz, fh);
    let d = v2_bytes(g, gs, gz, gh);
    lemma_after(e, b);
    lemma_after(d, b);
    let x = after(e, b);
    let y = after(d, b);
    let f3 = tail_bytes(fz, fh) + x;
    let g3 = tail_bytes(gz, gh) + y;
    let f2 = content_bytes(f) + f3;
    let g2 = content_bytes(g) + g3;
    let f1 = opt_text_bytes(fs) + f2;
    let g1 = opt_text_bytes(gs) + g2;
    lemma_v2_then(f, fs, fz, fh, x);
    lemma_v2_then(g, gs, gz, gh, y);
    lemma_id_split(f, g, f1, g1);
    lemma_opt_text_split(fs, gs, f2, g2);
    lemma_content_split(f, g, f3, g3);
    lemma_tail_split(fz, fh, gz, gh, x, y);
}

/// Bytes begin with the encoding of at most one message of the oldest format.
pub proof fn lemma_v0_unique(f: FieldsView, g: FieldsView, b: Seq<u8>)
    requires
        b.len() < 0x1_0000_0000_0000_0000,
        v0_bytes(f).is_prefix_of(b),
        v0_bytes(g).is_prefix_of(b),
    ensures
        f == g,
        v0_bytes(f).len() == v0_bytes(g).len(),
{
    lemma_beyond();
    lemma_fit(f, b);
    lemma_fit(g, b);
    let e = v0_bytes(f);
    let d = v0_bytes(g);
    lemma_after(e, b);
    lemma_after(d, b);
    let x = after(e, b);
    let y = after(d, b);
    assert(e + x =~= id_bytes(f) + (content_bytes(f) + x));
    assert(d + y =~= id_bytes(g) + (content_bytes(g) + y));
    lemma_id_split(f, g, content_bytes(f) + x, content_bytes(g) + y);
    lemma_content_split(f, g, x, y);
}

/// Bytes begin with the encoding of at most one message without a sender.
pub proof fn lemma_v1_unique(
    f: FieldsView,
    fz: usize,
    fh: Option<Seq<char>>,
    g: FieldsView,
    gz: usize,
    gh: Option<Seq<char>>,
    b: Seq<u8>,
)
    requires
        b.len() < 0x1_0000_0000_0000_0000,
        v1_bytes(f, fz, fh).is_prefix_of(b),
        v1_bytes(g, gz, gh).is_prefix_of(b),
    ensures
        f == g,
        fz == gz,
        fh == gh,
{
    lemma_beyond();
    let e = v1_bytes(f, fz, fh);
    let d = v1_bytes(g, gz, gh);
    assert(e.take(v0_bytes(f).len() as int) =~= v0_bytes(f));
    assert(d.take(v0_bytes(g).len() as int) =~= v0_bytes(g));
    assert(v0_bytes(f).is_prefix_of(b));
    assert(v0_bytes(g).is_prefix_of(b));
    lemma_v0_unique(f, g, b);
    lemma_after(e, b);
    lemma_after(d, b);
    let n = v0_bytes(f).len() as int;
    let x = after(e, b);
    let y = after(d, b);
    assert(b.skip(n) =~= tail_bytes(fz, fh) + x);
    assert(b.skip(n) =~= tail_bytes(gz, gh) + y);
    lemma_tail_split(fz, fh, gz, gh, x, y);
}

/// The oldest format's encoding does not begin with one that has a size.
pub proof fn lemma_v0_is_no_v1(f: FieldsView, g: FieldsView, size: usize, sha: Option<Seq<char>>)
    requires
        v0_bytes(f).len() < 0x1_0000_0000_0000_0000,
    ensures
        !v1_bytes(g, size, sha).is_prefix_of(v0_bytes(f)),
{
    let b = v0_bytes(f);
    let e = v1_bytes(g, size, sha);
    if e.is_prefix_of(b) {
        assert(e.take(v0_bytes(g).len() as int) =~= v0_bytes(g));
        assert(v0_bytes(g).is_prefix_of(b));
        lemma_v0_unique(f, g, b);
        lemma_le_len(size as nat, 8);
    }
}

} // verus!
