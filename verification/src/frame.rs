//! Frames on a connection: the payload's length in four bytes, most significant
//! first, then the payload.

use crate::message::{join_view, Message, MessageView};
use crate::number::be_bytes4;
use crate::text::{trim, trimmed};
use vstd::prelude::*;

verus! {

/// The length that a frame's first four bytes give.
pub open spec fn header_value(h: Seq<u8>) -> nat {
    0x100_0000 * h[0] as nat + 0x1_0000 * h[1] as nat + 0x100 * h[2] as nat + h[3] as nat
}

/// The frame of a payload. The length is kept in 32 bits.
pub open spec fn frame_bytes(p: Seq<u8>) -> Seq<u8> {
    be_bytes4(p.len() % 0x1_0000_0000) + p
}

/// The frame of a payload.
pub fn frame(p: &[u8]) -> (res: Vec<u8>)
    ensures
        res@ == frame_bytes(p@),
{
    let n: u64 = (p.len() as u64) % 0x1_0000_0000u64;
    let mut out: Vec<u8> = Vec::new();
    out.push((n / 0x100_0000 % 256) as u8);
    out.push((n / 0x1_0000 % 256) as u8);
    out.push((n / 0x100 % 256) as u8);
    out.push((n % 256) as u8);
    out.extend_from_slice(p);
    assert(out@ =~= frame_bytes(p@));
    out
}

/// The length of the payload that follows a header.
pub fn frame_len(h: &[u8; 4]) -> (res: usize)
    ensures
        res == header_value(h@),
{
    let n: u32 = 0x100_0000 * h[0] as u32 + 0x1_0000 * h[1] as u32 + 0x100 * h[2] as u32
        + h[3] as u32;
    n as usize
}

/// What a reader takes from a frame is the payload that was sent, whatever follows
/// it, where the length fits in 32 bits.
pub proof fn law_frame_then_read(p: Seq<u8>, rest: Seq<u8>)
    requires
        p.len() < 0x1_0000_0000,
    ensures
        ({
            let s = frame_bytes(p) + rest;
            let n = header_value(s.take(4)) as int;
            &&& n == p.len()
            &&& s.subrange(4, 4 + n) == p
            &&& s.skip(4 + n) == rest
        }),
{
    let s = frame_bytes(p) + rest;
    let n = p.len();
    let h = s.take(4);
    assert(h =~= be_bytes4(n));
    assert(n / 0x100_0000 < 256);
    assert(n / 0x1_0000 == 256 * (n / 0x100_0000) + n / 0x1_0000 % 256) by (nonlinear_arith)
        requires
            n >= 0,
    ;
    assert(n / 0x100 == 256 * (n / 0x1_0000) + n / 0x100 % 256) by (nonlinear_arith)
        requires
            n >= 0,
    ;
    assert(header_value(h) == n);
    assert(s.subrange(4, 4 + n as int) =~= p);
    assert(s.skip(4 + n as int) =~= rest);
}

/// The name that a device sends along: none where it is blank.
pub open spec fn sender_name(device_name: Seq<char>) -> Option<Seq<char>> {
    if trimmed(device_name).len() == 0 {
        None
    } else {
        Some(device_name)
    }
}

/// The name that a device sends along.
pub fn sender_name_of(device_name: &str) -> (res: Option<String>)
    ensures
        crate::wire::opt_text(res) == sender_name(device_name@),
{
    if trim(device_name).is_empty() {
        None
    } else {
        Some(device_name.to_string())
    }
}

/// A join message that names its sender.
pub open spec fn named_join(m: MessageView, device_name: Seq<char>) -> MessageView {
    MessageView { sender_name: sender_name(device_name), ..m }
}

/// The first message on a connection: a join with the device's name, as a frame.
pub fn join_frame(device_id: &str, device_name: &str, room: &str) -> (res: Vec<u8>)
    ensures
        exists|id: Seq<char>, ts: u64|
            res@ == frame_bytes(
                crate::message::message_bytes(
                    named_join(#[trigger] join_view(id, ts, device_id@, room@), device_name@),
                ),
            ),
{
    let mut m = Message::new_join(device_id, room);
    let ghost plain = m@;
    m.sender_name = sender_name_of(device_name);
    assert(m@ =~= named_join(plain, device_name@));
    assert(plain == join_view(plain.event_id, plain.ts, device_id@, room@));
    frame(m.to_bytes().as_slice())
}

/// A name with a character that is not white space is sent along as it is; a blank one is not.
pub proof fn law_names_are_sent_along(name: Seq<char>, i: int)
    ensures
        0 <= i < name.len() && !crate::text::is_white(name[i]) ==> sender_name(name) == Some(name),
        (forall|k: int| 0 <= k < name.len() ==> crate::text::is_white(#[trigger] name[k]))
            ==> sender_name(name) is None,
{
    let r = crate::text::law_trimming_keeps_the_text(name);
    if trimmed(name).len() == 0 {
        assert(name =~= r.0 + r.1);
        if 0 <= i < name.len() {
            if i < r.0.len() {
                assert(name[i] == r.0[i]);
            } else {
                assert(name[i] == r.1[i - r.0.len()]);
            }
        }
    } else {
        assert(name[r.0.len() as int] == trimmed(name)[0]);
    }
}

/// A join that names its sender differs from one that does not in the name alone.
pub proof fn law_a_name_changes_nothing_else(m: MessageView, name: Seq<char>)
    ensures
        named_join(m, name).device_id == m.device_id,
        named_join(m, name).room == m.room,
        named_join(m, name).kind == m.kind,
        named_join(m, name).event_id == m.event_id,
        named_join(m, name).ts == m.ts,
        named_join(m, name).payload == m.payload,
        named_join(m, name).sender_name == sender_name(name),
{
}

} // verus!
