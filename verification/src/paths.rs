//! Where things are kept, and names that are safe in a file system.

use crate::consts::{APP_DIR_NAME, TAR_MIME};
use crate::number::{decimal, print};
use crate::path::{join_text, joined};
use crate::text::{chars_of, ends_with, lowered, same, to_lower};
use vstd::prelude::*;
use vstd::utf8::{decode_utf8, encode_utf8, is_char_boundary};

verus! {

/// `name` inside `dir`.
pub open spec fn in_dir(dir: Seq<u8>, name: Seq<char>) -> Seq<u8> {
    joined(dir, encode_utf8(name))
}

/// The directory for short-lived state: under the runtime directory where the
/// environment names one, else under the directory for temporary files, with the
/// user's number.
pub fn default_state_dir(runtime_dir: Option<&str>, temp_dir: &[u8], uid: u32) -> (res: Vec<u8>)
    ensures
        res@ == match runtime_dir {
            Some(d) => in_dir(encode_utf8(d@), APP_DIR_NAME@),
            None => in_dir(temp_dir@, APP_DIR_NAME@ + "-"@ + decimal(uid as nat)),
        },
{
    match runtime_dir {
        Some(d) => join_text(d.as_bytes(), APP_DIR_NAME),
        None => {
            let mut name = APP_DIR_NAME.to_string();
            name.append("-");
            name.append(print(uid as u128).as_str());
            join_text(temp_dir, name.as_str())
        },
    }
}

/// The directory for data that stays.
pub open spec fn data_dir(
    data_home: Option<Seq<char>>,
    home: Option<Seq<char>>,
    temp_dir: Seq<u8>,
) -> Seq<u8> {
    match (data_home, home) {
        (Some(d), _) => in_dir(encode_utf8(d), APP_DIR_NAME@),
        (None, Some(h)) => in_dir(in_dir(encode_utf8(h), ".local/share"@), APP_DIR_NAME@),
        (None, None) => in_dir(temp_dir, APP_DIR_NAME@),
    }
}

/// The directory for data that stays: under the user's data directory, else under
/// the home directory, else under the directory for temporary files.
pub fn default_data_dir(data_home: Option<&str>, home: Option<&str>, temp_dir: &[u8]) -> (res: Vec<
    u8,
>)
    ensures
        res@ == data_dir(
            match data_home {
                Some(d) => Some(d@),
                None => None,
            },
            match home {
                Some(h) => Some(h@),
                None => None,
            },
            temp_dir@,
        ),
{
    if let Some(d) = data_home {
        return join_text(d.as_bytes(), APP_DIR_NAME);
    }
    if let Some(h) = home {
        let share = join_text(h.as_bytes(), ".local/share");
        return join_text(share.as_slice(), APP_DIR_NAME);
    }
    join_text(temp_dir, APP_DIR_NAME)
}

/// The directory for received files, inside the data directory.
pub fn received_dir(data_dir: &[u8]) -> (res: Vec<u8>)
    ensures
        res@ == in_dir(data_dir@, "received"@),
{
    join_text(data_dir, "received")
}

/// The file of past events, inside the data directory.
pub fn history_path(data_dir: &[u8]) -> (res: Vec<u8>)
    ensures
        res@ == in_dir(data_dir@, "history.jsonl"@),
{
    join_text(data_dir, "history.jsonl")
}

/// A character that is kept in a file name.
pub open spec fn is_name_char(c: char) -> bool {
    ||| 'a' <= c <= 'z'
    ||| 'A' <= c <= 'Z'
    ||| '0' <= c <= '9'
    ||| c == '-'
    ||| c == '_'
    ||| c == '.'
}

/// `s` with an underscore in place of every character that is not kept.
pub open spec fn name_safe(s: Seq<char>) -> Seq<char> {
    s.map_values(|c: char| if is_name_char(c) { c } else { '_' })
}

/// A file name made of `s`: letters and digits of ASCII, hyphens, underscores and
/// dots stay, everything else becomes an underscore.
pub fn safe_for_filename(s: &str) -> (res: String)
    ensures
        res@ == name_safe(s@),
{
    let cs = chars_of(s);
    let mut out = String::new();
    let mut i: usize = 0;
    while i < cs.len()
        invariant
            i <= cs@.len(),
            cs@ == s@,
            out@ == name_safe(s@.take(i as int)),
        decreases cs@.len() - i,
    {
        let c = cs[i];
        let keep = ('a' <= c && c <= 'z') || ('A' <= c && c <= 'Z') || ('0' <= c && c <= '9') || c
            == '-' || c == '_' || c == '.';
        if keep {
            out.push(c);
        } else {
            out.push('_');
        }
        assert(out@ =~= name_safe(s@.take(i + 1)));
        i += 1;
    }
    assert(s@.take(i as int) =~= s@);
    out
}

/// A safe name has as many characters as the text it is made of, and each of them is
/// one that is kept: no slash, no white space.
pub proof fn law_safe_name_is_safe(s: Seq<char>)
    ensures
        name_safe(s).len() == s.len(),
        forall|i: int| 0 <= i < s.len() ==> is_name_char(#[trigger] name_safe(s)[i]),
        !name_safe(s).contains('/'),
{
    if name_safe(s).contains('/') {
        let i = choose|i: int| 0 <= i < name_safe(s).len() && name_safe(s)[i] == '/';
        assert(is_name_char(name_safe(s)[i]));
    }
}

/// Making a safe name of a safe name changes nothing.
pub proof fn law_safe_name_is_stable(s: Seq<char>)
    ensures
        name_safe(name_safe(s)) == name_safe(s),
{
    assert(name_safe(name_safe(s)) =~= name_safe(s));
}

/// A payload is an archive: its type says so, or its name ends in `.tar`.
pub open spec fn is_tar(name: Seq<char>, mime: Option<Seq<char>>) -> bool {
    mime == Some(TAR_MIME@) || ".tar"@.is_suffix_of(lowered(name))
}

/// Whether a payload is an archive.
pub fn is_tar_payload(name: &str, mime: Option<&str>) -> (res: bool)
    ensures
        res == is_tar(
            name@,
            match mime {
                Some(m) => Some(m@),
                None => None,
            },
        ),
{
    if let Some(m) = mime {
        if same(m, TAR_MIME) {
            return true;
        }
    }
    ends_with(to_lower(name).as_str(), ".tar")
}

/// `s` is short, or can be cut after its first eight bytes.
pub open spec fn can_cut_8(s: Seq<char>) -> bool {
    encode_utf8(s).len() >= 8 ==> is_char_boundary(encode_utf8(s), 8)
}

/// The text of the first eight bytes of `s`; all of it where it is shorter.
pub open spec fn first_eight(s: Seq<char>) -> Seq<char> {
    if encode_utf8(s).len() >= 8 {
        decode_utf8(encode_utf8(s).take(8))
    } else {
        s
    }
}

/// The first eight bytes of `s`, or all of it where it is shorter.
pub fn first_8(s: &str) -> (res: &str)
    requires
        can_cut_8(s@),
    ensures
        res@ == first_eight(s@),
{
    let b = s.as_bytes();
    if b.len() >= 8 {
        let (head, tail) = s.split_at(8);
        proof {
            vstd::utf8::encode_utf8_decode_utf8(head@);
            assert(encode_utf8(s@).subrange(0, 8) =~= encode_utf8(s@).take(8));
        }
        head
    } else {
        s
    }
}

/// A text of ASCII can be cut anywhere: its first eight bytes are its first eight
/// characters.
pub proof fn lemma_first_eight_ascii(s: Seq<char>)
    requires
        vstd::utf8::is_ascii_chars(s),
    ensures
        can_cut_8(s),
        first_eight(s) == if s.len() >= 8 {
            s.take(8)
        } else {
            s
        },
{
    vstd::utf8::is_ascii_chars_encode_utf8(s);
    if s.len() >= 8 {
        let t = s.take(8);
        assert(vstd::utf8::is_ascii_chars(t));
        vstd::utf8::is_ascii_chars_encode_utf8(t);
        assert(encode_utf8(s).take(8) =~= encode_utf8(t));
        vstd::utf8::encode_utf8_decode_utf8(t);
        lemma_boundary(s);
    }
}

proof fn lemma_boundary(s: Seq<char>)
    requires
        vstd::utf8::is_ascii_chars(s),
        s.len() >= 8,
    ensures
        is_char_boundary(encode_utf8(s), 8),
{
    let b = encode_utf8(s);
    vstd::utf8::is_ascii_chars_encode_utf8(s);
    vstd::utf8::encode_utf8_valid_utf8(s);
    if s.len() == 8 {
        vstd::utf8::is_char_boundary_start_end_of_seq(b);
    } else {
        let v: u8 = b[8];
        assert(v == s[8] as u8);
        assert(v < 0x80);
        vstd::utf8::is_char_boundary_iff_is_leading_byte(b, 8);
        assert(vstd::utf8::is_leading_byte_width_1(v));
    }
}

/// Letters and digits of ASCII, hyphens, underscores and dots are kept; an underscore stands
/// for anything else.
pub proof fn law_what_a_safe_name_keeps(s: Seq<char>, i: int)
    requires
        0 <= i < s.len(),
    ensures
        ({
            let c = s[i];
            let kept = ('a' <= c && c <= 'z') || ('A' <= c && c <= 'Z') || ('0' <= c && c <= '9') || c
                == '-' || c == '_' || c == '.';
            name_safe(s)[i] == if kept {
                c
            } else {
                '_'
            }
        }),
{
}

/// A payload whose name ends in `.tar`, in small letters or capitals, is an archive, and so is
/// one whose type is that of archives; nothing else is.
pub proof fn law_which_payloads_are_archives(stem: Seq<char>, end: Seq<char>, mime: Option<Seq<char>>)
    requires
        end.len() == 4,
    ensures
        is_tar(stem + end, mime) <==> mime == Some("application/x-tar"@) || end[0] == '.' && (end[1]
            == 't' || end[1] == 'T') && (end[2] == 'a' || end[2] == 'A') && (end[3] == 'r' || end[3]
            == 'R'),
        stem.len() < 4 ==> (is_tar(stem, mime) <==> mime == Some("application/x-tar"@)),
{
    reveal_strlit(".tar");
    let name = stem + end;
    let l = lowered(name);
    let t = ".tar"@;
    let n = name.len() as int;
    let tail = l.subrange(n - 4, n);
    assert(tail[0] == l[n - 4]);
    assert(tail[1] == l[n - 3]);
    assert(tail[2] == l[n - 2]);
    assert(tail[3] == l[n - 1]);
    assert(name[n - 4] == end[0] && name[n - 3] == end[1] && name[n - 2] == end[2] && name[n - 1]
        == end[3]);
    assert(t.len() == 4);
    assert(t[0] == '.' && t[1] == 't' && t[2] == 'a' && t[3] == 'r');
    if tail[0] == '.' && tail[1] == 't' && tail[2] == 'a' && tail[3] == 'r' {
        assert(tail =~= t);
    }
    if t.is_suffix_of(l) {
        assert(t =~= tail);
    }
}

/// The directory for data is the first that there is of the user's own, that under the home
/// directory and that for temporary files, and in it the one with this name.
pub proof fn law_where_data_goes(
    data_home: Option<Seq<char>>,
    home: Option<Seq<char>>,
    temp_dir: Seq<u8>,
)
    ensures
        data_home is Some ==> data_dir(data_home, home, temp_dir) == joined(
            encode_utf8(data_home->0),
            encode_utf8("multicliprelay"@),
        ),
        data_home is None && home is Some ==> data_dir(data_home, home, temp_dir) == joined(
            joined(encode_utf8(home->0), encode_utf8(".local/share"@)),
            encode_utf8("multicliprelay"@),
        ),
        data_home is None && home is None ==> data_dir(data_home, home, temp_dir) == joined(
            temp_dir,
            encode_utf8("multicliprelay"@),
        ),
{
}

/// What is cut off after eight characters of ASCII is the rest: the first eight stay.
pub proof fn law_first_eight(head: Seq<char>, rest: Seq<char>)
    requires
        vstd::utf8::is_ascii_chars(head + rest),
        head.len() == 8 || head.len() < 8 && rest.len() == 0,
    ensures
        first_eight(head + rest) == head,
{
    lemma_first_eight_ascii(head + rest);
    if head.len() == 8 {
        assert((head + rest).take(8) =~= head);
    } else {
        assert(head + rest =~= head);
    }
}

} // verus!
