//! The last digest sent for each kind of content, kept in a file of its own. Short
//! processes use it to avoid sending the same clipboard content twice.

use crate::paths::in_dir;
use crate::path::join_text;
use crate::text::{lemma_trimmed_line, replace, replaced, trim, trimmed};
use vstd::prelude::*;

verus! {

/// `s` with underscores in place of slashes, semicolons, equals signs and spaces.
pub open spec fn key_safe(s: Seq<char>) -> Seq<char> {
    replaced(replaced(replaced(replaced(s, '/', '_'), ';', '_'), '=', '_'), ' ', '_')
}

fn safe(s: &str) -> (res: String)
    ensures
        res@ == key_safe(s@),
{
    let a = replace(s, '/', '_');
    let b = replace(a.as_str(), ';', '_');
    let c = replace(b.as_str(), '=', '_');
    replace(c.as_str(), ' ', '_')
}

/// The name of the file for a room and a key. Rooms have files of their own.
pub open spec fn last_sent_name(room: Seq<char>, key: Seq<char>) -> Seq<char> {
    "lastsent_"@ + key_safe(room) + "_"@ + key_safe(key)
}

/// The file for a room and a key.
pub fn last_sent_path(state_dir: &[u8], room: &str, key: &str) -> (res: Vec<u8>)
    ensures
        res@ == in_dir(state_dir@, last_sent_name(room@, key@)),
{
    let mut name = String::new();
    name.append("lastsent_");
    name.append(safe(room).as_str());
    name.append("_");
    name.append(safe(key).as_str());
    assert(name@ =~= last_sent_name(room@, key@));
    join_text(state_dir, name.as_str())
}

/// The digest in a file: nothing where it is blank.
pub open spec fn last_sent(file: Seq<char>) -> Option<Seq<char>> {
    if trimmed(file).len() == 0 {
        None
    } else {
        Some(trimmed(file))
    }
}

/// The digest in a file.
pub fn read_last_sent(file: &str) -> (res: Option<String>)
    ensures
        crate::wire::opt_text(res) == last_sent(file@),
{
    let s = trim(file);
    if s.is_empty() {
        None
    } else {
        Some(s.to_string())
    }
}

/// What a file holds for a digest: a line.
pub fn last_sent_file(sha: &str) -> (res: String)
    ensures
        res@ == sha@.push('\n'),
{
    let mut out = sha.to_string();
    out.push('\n');
    out
}

/// What is read back is the digest that was written.
pub proof fn law_write_then_read(sha: Seq<char>)
    requires
        sha.len() > 0,
        trimmed(sha) == sha,
    ensures
        last_sent(sha.push('\n')) == Some(sha),
{
    lemma_trimmed_line(sha);
}

/// In the name of a file, underscores stand for slashes, semicolons, equals signs and blanks,
/// and everything else stays.
pub proof fn law_what_a_key_keeps(s: Seq<char>, i: int)
    requires
        0 <= i < s.len(),
    ensures
        key_safe(s).len() == s.len(),
        key_safe(s)[i] == if s[i] == '/' || s[i] == ';' || s[i] == '=' || s[i] == ' ' {
            '_'
        } else {
            s[i]
        },
{
}

/// Keys of one room that are written differently have files of their own, and so have rooms
/// with one key.
pub proof fn law_files_of_their_own(
    room: Seq<char>,
    key: Seq<char>,
    other_room: Seq<char>,
    other_key: Seq<char>,
)
    requires
        last_sent_name(room, key) == last_sent_name(other_room, other_key),
    ensures
        room == other_room ==> key_safe(key) == key_safe(other_key),
        key == other_key ==> key_safe(room) == key_safe(other_room),
{
    let a = last_sent_name(room, key);
    let b = last_sent_name(other_room, other_key);
    let p = "lastsent_"@;
    let u = "_"@;
    assert(a =~= p + key_safe(room) + u + key_safe(key));
    assert(b =~= p + key_safe(other_room) + u + key_safe(other_key));
    let n = a.len() as int;
    if room == other_room {
        let h = (p + key_safe(room) + u).len() as int;
        assert(a.skip(h) =~= key_safe(key));
        assert(b.skip(h) =~= key_safe(other_key));
    }
    if key == other_key {
        let h = p.len() as int;
        let t = n - key_safe(key).len() - u.len();
        assert(a.subrange(h, t) =~= key_safe(room));
        assert(b.subrange(h, t) =~= key_safe(other_room));
    }
}

/// A digest is read without the white space around it, from any file that holds more than
/// white space.
pub proof fn law_a_digest_is_read(head: Seq<char>, sha: Seq<char>, tail: Seq<char>)
    requires
        forall|i: int| 0 <= i < head.len() ==> crate::text::is_white(#[trigger] head[i]),
        forall|i: int| 0 <= i < tail.len() ==> crate::text::is_white(#[trigger] tail[i]),
        sha.len() > 0 ==> !crate::text::is_white(sha[0]) && !crate::text::is_white(sha.last()),
    ensures
        last_sent(head + sha + tail) == if sha.len() > 0 {
            Some(sha)
        } else {
            None
        },
{
    crate::text::law_trimming(head, sha, tail);
}

} // verus!
