//! Files on the clipboard: lists of addresses, file types and names.

use crate::bytes::{lossy, lossy_text, on_two_lines, utf8_text};
use crate::codec::{sniff, sniffed};
use crate::path::{
    extension, extension_of, last_name, last_name_of, part_bytes, parts, parts_of, rendered, PartView,
};
use crate::text::{
    lemma_first_line, lemma_position, lemma_trimmed, lemma_trimmed_cr, lines, lines_of, lowered,
    position, same, to_lower, trim, trimmed, without_cr,
};
use crate::wire::opt_text;
use vstd::prelude::*;
use vstd::utf8::{
    decode_utf8, encode_utf8, encode_utf8_decode_utf8, encode_utf8_valid_utf8, valid_utf8,
};

verus! {

/// The extension of a file, in lower case; empty where it has none that is text.
pub open spec fn lower_extension(file: Seq<u8>) -> Seq<char> {
    match last_name(parts(file)) {
        Some(n) => match extension(n) {
            Some(e) => if valid_utf8(e) {
                lowered(decode_utf8(e))
            } else {
                Seq::empty()
            },
            None => Seq::empty(),
        },
        None => Seq::empty(),
    }
}

/// The extension of a file, in lower case.
pub fn lower_extension_of(file: &[u8]) -> (res: String)
    ensures
        res@ == lower_extension(file@),
{
    let cs = parts_of(file);
    if let Some(n) = last_name_of(&cs) {
        if let Some(e) = extension_of(n.as_slice()) {
            if let Some(s) = utf8_text(e.as_slice()) {
                return to_lower(s);
            }
        }
    }
    String::new()
}

/// An extension of files that hold plain text.
pub open spec fn is_text_extension(e: Seq<char>) -> bool {
    e == "txt"@ || e == "md"@ || e == "rs"@ || e == "toml"@ || e == "json"@ || e == "yaml"@ || e
        == "yml"@
}

/// The type of a file, given what its content gives away: that, else what its
/// extension hints at.
pub open spec fn file_mime(content: Option<Seq<char>>, file: Seq<u8>) -> Seq<char> {
    match content {
        Some(m) => m,
        None => if is_text_extension(lower_extension(file)) {
            "text/plain;charset=utf-8"@
        } else {
            "application/octet-stream"@
        },
    }
}

/// The type of a file, given what its content gives away.
pub fn file_mime_of(content: Option<&str>, file: &[u8]) -> (res: String)
    ensures
        res@ == file_mime(
            match content {
                Some(m) => Some(m@),
                None => None,
            },
            file@,
        ),
{
    if let Some(m) = content {
        return m.to_string();
    }
    let ext = lower_extension_of(file);
    let e = ext.as_str();
    if same(e, "txt") || same(e, "md") || same(e, "rs") || same(e, "toml") || same(e, "json")
        || same(e, "yaml") || same(e, "yml") {
        "text/plain;charset=utf-8".to_string()
    } else {
        "application/octet-stream".to_string()
    }
}

/// The type of a file with the given content.
pub fn detect_file_mime(bytes: &[u8], file: &[u8]) -> (res: String)
    ensures
        res@ == file_mime(sniffed(bytes@), file@),
{
    file_mime_of(sniff(bytes), file)
}

/// What is read of an address.
#[verifier::ext_equal]
pub struct UrlView {
    pub scheme: Seq<char>,
    pub host: Option<Seq<char>>,
    pub path: Seq<char>,
    pub file_path: Option<Seq<u8>>,
}

/// What is read of an address.
#[derive(Debug)]
pub struct FileUrl {
    pub scheme: String,
    pub host: Option<String>,
    /// The path as it is written, with its percent signs.
    pub path: String,
    /// The local file that the address stands for.
    pub file_path: Option<Vec<u8>>,
}

impl View for FileUrl {
    type V = UrlView;

    open spec fn view(&self) -> UrlView {
        UrlView {
            scheme: self.scheme@,
            host: opt_text(self.host),
            path: self.path@,
            file_path: crate::wire::opt_payload(self.file_path),
        }
    }
}

impl DeepView for FileUrl {
    type V = UrlView;

    open spec fn deep_view(&self) -> UrlView {
        self@
    }
}

impl FileUrl {
    /// The scheme.
    pub fn scheme(&self) -> (res: &str)
        ensures
            res@ == self@.scheme,
    {
        self.scheme.as_str()
    }
}

/// An address, read; nothing where the text is none. The local file is that of a Unix
/// system.
pub uninterp spec fn read_url(s: Seq<char>) -> Option<UrlView>;

/// A path without slashes that do not count.
pub open spec fn plain_form(p: Seq<u8>) -> Seq<u8> {
    rendered(parts(p))
}

/// A path whose address stands for it alone: it is absolute and made of names. With a colon or
/// a bar a name may be taken for a drive.
pub open spec fn has_own_address(p: Seq<u8>) -> bool {
    &&& p.len() > 0 && p[0] == 47u8
    &&& forall|i: int| 1 <= i < parts(p).len() ==> (#[trigger] parts(p)[i]) is Name
    &&& !p.contains(0u8) && !p.contains(58u8) && !p.contains(124u8)
}

/// `url::Url::parse`, with the address's scheme, host, path and local file
/// (`Url::to_file_path`). An address that was made of an absolute path of names is read as a
/// local file with that path.
#[verifier::external_body]
fn parse_url(s: &str) -> (res: Option<FileUrl>)
    ensures
        match res {
            Some(u) => read_url(s@) == Some(u@),
            None => read_url(s@) is None,
        },
        forall|p: Seq<u8>|
            has_own_address(p) && #[trigger] file_url(p) == Some(s@) ==> res is Some
                && res->0@.scheme == "file"@ && res->0@.file_path == Some(plain_form(p)),
{
    url::Url::parse(s).ok().map(|u| FileUrl {
        scheme: u.scheme().to_string(),
        host: u.host_str().map(|h| h.to_string()),
        path: u.path().to_string(),
        file_path: u.to_file_path().ok().map(|p| p.into_os_string().into_encoded_bytes()),
    })
}

/// A line of a list of addresses that is looked at: not blank, no comment, and not
/// one of the two words that open GNOME's list.
pub open spec fn is_entry(line: Seq<char>) -> bool {
    &&& line.len() > 0
    &&& line[0] != '#'
    &&& line != "copy"@
    &&& line != "cut"@
}

/// The addresses of a list's lines, given how addresses are read.
pub open spec fn urls_of_lines(ls: Seq<Seq<char>>) -> Seq<UrlView>
    decreases ls.len(),
{
    if ls.len() == 0 {
        Seq::empty()
    } else {
        let line = trimmed(ls.last());
        let before = urls_of_lines(ls.drop_last());
        match read_url(line) {
            Some(u) => if is_entry(line) {
                before.push(u)
            } else {
                before
            },
            None => before,
        }
    }
}

/// The addresses in a list, one on a line.
pub open spec fn urls_in(bytes: Seq<u8>) -> Seq<UrlView> {
    urls_of_lines(lines_of(lossy(bytes)))
}

/// Where `line` is the address of a path, it is read as a local file with that path.
pub open spec fn reads_back(line: Seq<char>) -> bool {
    forall|p: Seq<u8>|
        has_own_address(p) && #[trigger] file_url(p) == Some(line) ==> read_url(line) is Some
            && read_url(line)->0.scheme == "file"@ && read_url(line)->0.file_path == Some(
            plain_form(p),
        )
}

/// The addresses in a list, one on a line. Each line is read by itself: of two lists with a
/// line feed between them come the addresses of the one and then those of the other, whatever
/// the lines hold.
pub fn parse_uri_list(bytes: &[u8]) -> (res: Vec<FileUrl>)
    ensures
        res.deep_view() == urls_in(bytes@),
        forall|x: Seq<u8>, y: Seq<u8>| #[trigger]
            on_two_lines(x, y) == bytes@ ==> res.deep_view() == urls_in(x) + urls_in(y),
        valid_utf8(bytes@) ==> lossy(bytes@) == decode_utf8(bytes@),
        forall|i: int|
            0 <= i < lines_of(lossy(bytes@)).len() && is_entry(
                trimmed(#[trigger] lines_of(lossy(bytes@))[i]),
            ) ==> reads_back(trimmed(lines_of(lossy(bytes@))[i])),
{
    let s = lossy_text(bytes);
    let ls = lines(s.as_str());
    let ghost all = lines_of(s@);
    let mut out: Vec<FileUrl> = Vec::new();
    let mut i: usize = 0;
    assert(all.take(0) =~= Seq::empty());
    while i < ls.len()
        invariant
            i <= ls@.len(),
            all == ls.deep_view(),
            all.len() == ls@.len(),
            out.deep_view() == urls_of_lines(all.take(i as int)),
            forall|k: int|
                0 <= k < i && is_entry(trimmed(#[trigger] all[k])) ==> reads_back(trimmed(all[k])),
        decreases ls@.len() - i,
    {
        let ghost next = all.take(i + 1);
        assert(next.drop_last() =~= all.take(i as int));
        assert(next.last() == ls@[i as int]@);
        let line = trim(ls[i].as_str());
        let ghost before = out.deep_view();
        if entry(line) {
            if let Some(u) = parse_url(line) {
                out.push(u);
                assert(out.deep_view() =~= before.push(u@));
            }
        }
        i += 1;
    }
    assert(all.take(i as int) =~= all);
    proof {
        assert forall|x: Seq<u8>, y: Seq<u8>| #[trigger]
            on_two_lines(x, y) == bytes@ implies out.deep_view() == urls_in(x) + urls_in(y) by {
            lemma_joined_lists(lossy(x), lossy(y));
        }
    }
    out
}

proof fn lemma_urls_of_two(a: Seq<Seq<char>>, b: Seq<Seq<char>>)
    ensures
        urls_of_lines(a + b) == urls_of_lines(a) + urls_of_lines(b),
    decreases b.len(),
{
    if b.len() == 0 {
        assert(a + b =~= a);
        assert(urls_of_lines(a) + urls_of_lines(b) =~= urls_of_lines(a));
    } else {
        assert((a + b).drop_last() =~= a + b.drop_last());
        lemma_urls_of_two(a, b.drop_last());
        assert(urls_of_lines(a + b) =~= urls_of_lines(a) + urls_of_lines(b));
    }
}

proof fn lemma_urls_of_one(a: Seq<char>, b: Seq<char>)
    requires
        trimmed(a) == trimmed(b),
    ensures
        urls_of_lines(seq![a]) == urls_of_lines(seq![b]),
        !is_entry(trimmed(a)) ==> urls_of_lines(seq![a]) == Seq::<UrlView>::empty(),
{
    reveal_with_fuel(urls_of_lines, 2);
    assert(seq![a].drop_last() =~= seq![b].drop_last());
    assert(seq![a].drop_last() =~= Seq::<Seq<char>>::empty());
}

/// Two lists with a line feed between them are read one after the other.
proof fn lemma_joined_lists(s: Seq<char>, t: Seq<char>)
    ensures
        urls_of_lines(lines_of(s.push('\n') + t)) == urls_of_lines(lines_of(s)) + urls_of_lines(
            lines_of(t),
        ),
    decreases s.len(),
{
    lemma_position(s, '\n');
    let i = position(s, '\n') as int;
    if i >= s.len() {
        lemma_first_line(s, t);
        lemma_trimmed_cr(s);
        lemma_urls_of_two(seq![without_cr(s)], lines_of(t));
        lemma_urls_of_one(without_cr(s), s);
        if s.len() == 0 {
            assert(trimmed(s).len() == 0);
            assert(Seq::<UrlView>::empty() + urls_of_lines(lines_of(t)) =~= urls_of_lines(
                lines_of(t),
            ));
        }
    } else {
        let a = s.take(i);
        let b = s.skip(i + 1);
        if a.contains('\n') {
            let k = choose|k: int| 0 <= k < a.len() && a[k] == '\n';
            assert(s[k] == '\n');
        }
        assert(s.push('\n') + t =~= a.push('\n') + (b.push('\n') + t));
        lemma_first_line(a, b.push('\n') + t);
        lemma_joined_lists(b, t);
        let l = seq![without_cr(a)];
        lemma_urls_of_two(l, lines_of(b.push('\n') + t));
        lemma_urls_of_two(l, lines_of(b));
        assert(urls_of_lines(l) + (urls_of_lines(lines_of(b)) + urls_of_lines(lines_of(t)))
            =~= urls_of_lines(lines_of(s)) + urls_of_lines(lines_of(t)));
    }
}

fn entry(line: &str) -> (res: bool)
    ensures
        res == is_entry(line@),
{
    if line.is_empty() || same(line, "copy") || same(line, "cut") {
        return false;
    }
    line.get_char(0) != '#'
}

/// The local file of an address. Some file managers write `file://home/...` for
/// `/home/...`: there the host is the first part of the path.
pub open spec fn local_path(u: UrlView) -> Option<Seq<u8>> {
    if u.scheme != "file"@ {
        None
    } else {
        match u.file_path {
            Some(p) => Some(p),
            None => match u.host {
                Some(h) => if h.len() == 0 {
                    None
                } else {
                    Some(encode_utf8("/"@ + h + u.path))
                },
                None => None,
            },
        }
    }
}

/// The local file of an address.
pub fn local_path_of(u: &FileUrl) -> (res: Option<Vec<u8>>)
    ensures
        crate::wire::opt_payload(res) == local_path(u@),
{
    if !same(u.scheme.as_str(), "file") {
        return None;
    }
    if let Some(p) = &u.file_path {
        return Some(crate::bytes::to_vec(p.as_slice()));
    }
    match &u.host {
        Some(h) => {
            if h.as_str().is_empty() {
                return None;
            }
            let mut s = String::new();
            s.append("/");
            s.append(h.as_str());
            s.append(u.path.as_str());
            assert(s@ =~= "/"@ + h@ + u.path@);
            Some(s.as_str().as_bytes_vec())
        },
        None => None,
    }
}

/// The local files of addresses, in order; other addresses are left out.
pub open spec fn local_paths(us: Seq<UrlView>) -> Seq<Seq<u8>>
    decreases us.len(),
{
    if us.len() == 0 {
        Seq::empty()
    } else {
        let before = local_paths(us.drop_last());
        match local_path(us.last()) {
            Some(p) => before.push(p),
            None => before,
        }
    }
}

/// The local files of addresses.
pub fn local_paths_of(us: &Vec<FileUrl>) -> (res: Vec<Vec<u8>>)
    ensures
        res.deep_view() == local_paths(us.deep_view()),
{
    let ghost all = us.deep_view();
    let mut out: Vec<Vec<u8>> = Vec::new();
    let mut i: usize = 0;
    assert(all.take(0) =~= Seq::empty());
    while i < us.len()
        invariant
            i <= us@.len(),
            all == us.deep_view(),
            all.len() == us@.len(),
            out.deep_view() == local_paths(all.take(i as int)),
        decreases us@.len() - i,
    {
        let ghost next = all.take(i + 1);
        assert(next.drop_last() =~= all.take(i as int));
        assert(next.last() == us@[i as int]@);
        let ghost before = out.deep_view();
        if let Some(p) = local_path_of(&us[i]) {
            out.push(p);
            assert(p.deep_view() =~= p@);
            assert(out.deep_view() =~= before.push(p@));
        }
        i += 1;
    }
    assert(all.take(i as int) =~= all);
    out
}

proof fn lemma_local_paths_of_two(a: Seq<UrlView>, b: Seq<UrlView>)
    ensures
        local_paths(a + b) == local_paths(a) + local_paths(b),
    decreases b.len(),
{
    if b.len() == 0 {
        assert(a + b =~= a);
        assert(local_paths(a) + local_paths(b) =~= local_paths(a));
    } else {
        assert((a + b).drop_last() =~= a + b.drop_last());
        lemma_local_paths_of_two(a, b.drop_last());
        assert(local_paths(a + b) =~= local_paths(a) + local_paths(b));
    }
}

/// The paths of files whose addresses stand for them alone.
pub open spec fn have_own_addresses(paths: Seq<Seq<char>>) -> bool {
    forall|i: int| 0 <= i < paths.len() ==> has_own_address(encode_utf8(#[trigger] paths[i]))
}

/// Paths as bytes, without slashes that do not count.
pub open spec fn plain_forms(paths: Seq<Seq<char>>) -> Seq<Seq<u8>> {
    paths.map_values(|p: Seq<char>| plain_form(encode_utf8(p)))
}

/// The local files in a list of addresses. Each line is read by itself. A list that was built
/// of absolute paths gives those paths, in order; so does GNOME's form of it, which begins
/// with a word on a line of its own.
pub fn collect_clipboard_paths(bytes: &[u8]) -> (res: Vec<Vec<u8>>)
    ensures
        res.deep_view() == local_paths(urls_in(bytes@)),
        forall|x: Seq<u8>, y: Seq<u8>| #[trigger]
            on_two_lines(x, y) == bytes@ ==> res.deep_view() == local_paths(urls_in(x))
                + local_paths(urls_in(y)),
        forall|paths: Seq<Seq<char>>| #[trigger]
            have_own_addresses(paths) && (bytes@ == encode_utf8(url_lines(file_urls(paths)))
                || bytes@ == encode_utf8("copy\n"@ + url_lines(file_urls(paths))))
                ==> res.deep_view() == plain_forms(paths),
{
    let urls = parse_uri_list(bytes);
    proof {
        assert forall|x: Seq<u8>, y: Seq<u8>| #[trigger] on_two_lines(x, y) == bytes@ implies
            local_paths(urls.deep_view()) == local_paths(urls_in(x)) + local_paths(urls_in(y)) by {
            lemma_local_paths_of_two(urls_in(x), urls_in(y));
        }
        assert forall|paths: Seq<Seq<char>>| #[trigger]
            have_own_addresses(paths) && (bytes@ == encode_utf8(url_lines(file_urls(paths)))
                || bytes@ == encode_utf8("copy\n"@ + url_lines(file_urls(paths)))) implies
            local_paths(urls.deep_view()) == plain_forms(paths) by {
            lemma_list_reads_back(bytes@, paths);
        }
    }
    local_paths_of(&urls)
}

/// The addresses of files, one for each.
spec fn addresses(paths: Seq<Seq<char>>) -> Seq<Seq<char>> {
    Seq::new(paths.len(), |i: int| file_url(encode_utf8(paths[i]))->0)
}

proof fn lemma_url_lines_of_two(a: Seq<Option<Seq<char>>>, b: Seq<Option<Seq<char>>>)
    ensures
        url_lines(a + b) == url_lines(a) + url_lines(b),
    decreases b.len(),
{
    if b.len() == 0 {
        assert(a + b =~= a);
        assert(url_lines(a) + url_lines(b) =~= url_lines(a));
    } else {
        assert((a + b).drop_last() =~= a + b.drop_last());
        lemma_url_lines_of_two(a, b.drop_last());
        assert(url_lines(a + b) =~= url_lines(a) + url_lines(b));
    }
}

/// An address is a line of its own, with nothing to trim, and is looked at.
proof fn lemma_address(path: Seq<u8>)
    requires
        has_own_address(path),
    ensures
        file_url(path) is Some,
        !file_url(path)->0.contains('\n'),
        without_cr(file_url(path)->0) == file_url(path)->0,
        trimmed(file_url(path)->0) == file_url(path)->0,
        is_entry(file_url(path)->0),
{
    law_file_url_shape(path);
    reveal_strlit("file:///");
    reveal_strlit("copy");
    reveal_strlit("cut");
    let u = file_url(path)->0;
    assert(u.subrange(0, 8) == "file:///"@);
    assert(u[0] == u.subrange(0, 8)[0]);
    assert(u[0] == 'f');
    assert('!' <= u[u.len() - 1] <= '~');
    lemma_trimmed(u);
    assert("copy"@[0] == 'c');
    assert("cut"@[0] == 'c');
}

/// The lines of a list that was built of paths are the addresses.
proof fn lemma_lines_of_list(paths: Seq<Seq<char>>)
    requires
        have_own_addresses(paths),
    ensures
        lines_of(url_lines(file_urls(paths))) == addresses(paths),
    decreases paths.len(),
{
    let all = file_urls(paths);
    if paths.len() == 0 {
        assert(lines_of(url_lines(all)) =~= addresses(paths));
    } else {
        let rest = paths.drop_first();
        assert forall|i: int| 0 <= i < rest.len() implies has_own_address(
            encode_utf8(#[trigger] rest[i]),
        ) by {
            assert(rest[i] == paths[i + 1]);
        }
        lemma_lines_of_list(rest);
        lemma_address(encode_utf8(paths[0]));
        let u = file_url(encode_utf8(paths[0]))->0;
        let one = seq![Some(u)];
        assert(all =~= one + file_urls(rest));
        lemma_url_lines_of_two(one, file_urls(rest));
        assert(one.drop_last() =~= Seq::<Option<Seq<char>>>::empty());
        reveal_with_fuel(url_lines, 2);
        assert(one.last() == Some(u));
        assert(url_lines(one) =~= u.push('\n'));
        lemma_first_line(u, url_lines(file_urls(rest)));
        assert(seq![u] + addresses(rest) =~= addresses(paths)) by {
            assert forall|i: int| 0 <= i < rest.len() implies addresses(rest)[i] == addresses(
                paths,
            )[i + 1] by {
                assert(rest[i] == paths[i + 1]);
            }
        }
    }
}

/// Addresses that are read back give the paths that they were made of.
proof fn lemma_addresses_read_back(paths: Seq<Seq<char>>)
    requires
        have_own_addresses(paths),
        forall|i: int| 0 <= i < paths.len() ==> reads_back(#[trigger] addresses(paths)[i]),
    ensures
        local_paths(urls_of_lines(addresses(paths))) == plain_forms(paths),
    decreases paths.len(),
{
    let ls = addresses(paths);
    if paths.len() == 0 {
        assert(local_paths(urls_of_lines(ls)) =~= plain_forms(paths));
    } else {
        let init = paths.drop_last();
        assert(ls.drop_last() =~= addresses(init));
        assert forall|i: int| 0 <= i < init.len() implies has_own_address(
            encode_utf8(#[trigger] init[i]),
        ) by {
            assert(init[i] == paths[i]);
        }
        assert forall|i: int| 0 <= i < init.len() implies reads_back(
            #[trigger] addresses(init)[i],
        ) by {
            assert(addresses(init)[i] == ls[i]);
        }
        lemma_addresses_read_back(init);
        let p = encode_utf8(paths.last());
        assert(paths[paths.len() - 1] == paths.last());
        lemma_address(p);
        assert(ls.last() == ls[paths.len() - 1]);
        assert(file_url(p) == Some(ls.last()));
        assert(reads_back(ls.last()));
        let before = urls_of_lines(ls.drop_last());
        let u = read_url(ls.last())->0;
        assert(urls_of_lines(ls) == before.push(u));
        assert(before.push(u).drop_last() =~= before);
        assert(local_path(u) == Some(plain_form(p)));
        assert(plain_forms(paths) =~= plain_forms(init).push(plain_form(p)));
    }
}

/// A list that was built of paths reads back as those paths, by itself or in GNOME's form.
proof fn lemma_list_reads_back(bytes: Seq<u8>, paths: Seq<Seq<char>>)
    requires
        have_own_addresses(paths),
        bytes == encode_utf8(url_lines(file_urls(paths))) || bytes == encode_utf8(
            "copy\n"@ + url_lines(file_urls(paths)),
        ),
        valid_utf8(bytes) ==> lossy(bytes) == decode_utf8(bytes),
        forall|i: int|
            0 <= i < lines_of(lossy(bytes)).len() && is_entry(
                trimmed(#[trigger] lines_of(lossy(bytes))[i]),
            ) ==> reads_back(trimmed(lines_of(lossy(bytes))[i])),
    ensures
        local_paths(urls_in(bytes)) == plain_forms(paths),
{
    let list = url_lines(file_urls(paths));
    let ls = lines_of(lossy(bytes));
    let a = addresses(paths);
    encode_utf8_valid_utf8(list);
    encode_utf8_decode_utf8(list);
    encode_utf8_valid_utf8("copy\n"@ + list);
    encode_utf8_decode_utf8("copy\n"@ + list);
    lemma_lines_of_list(paths);
    let word = seq!["copy"@];
    reveal_strlit("copy");
    reveal_strlit("copy\n");
    if bytes == encode_utf8(list) {
        assert(ls == a);
        assert forall|i: int| 0 <= i < paths.len() implies reads_back(#[trigger] a[i]) by {
            lemma_address(encode_utf8(paths[i]));
            assert(ls[i] == a[i]);
        }
    } else {
        assert("copy\n"@ + list =~= "copy"@.push('\n') + list);
        lemma_first_line("copy"@, list);
        lemma_trimmed("copy"@);
        assert(ls =~= word + a);
        assert forall|i: int| 0 <= i < paths.len() implies reads_back(#[trigger] a[i]) by {
            lemma_address(encode_utf8(paths[i]));
            assert(ls[i + 1] == a[i]);
        }
        lemma_urls_of_two(word, a);
        lemma_urls_of_one("copy"@, "copy"@);
        assert(urls_of_lines(ls) =~= urls_of_lines(a));
    }
    lemma_addresses_read_back(paths);
}

/// A byte that an address holds as it is.
pub open spec fn is_plain(b: u8) -> bool {
    &&& 0x21 <= b <= 0x7e
    &&& b != 0x22 && b != 0x23 && b != 0x25 && b != 0x2f && b != 0x3c && b != 0x3e && b != 0x3f && b
        != 0x5c && b != 0x60 && b != 0x7b && b != 0x7d
}

/// An upper-case hexadecimal digit.
pub open spec fn upper_hex(n: int) -> char {
    if n < 10 {
        (48 + n) as char
    } else {
        (55 + n) as char
    }
}

/// Bytes as they stand in an address: a percent sign and two hexadecimal digits for
/// each that is not plain.
pub open spec fn escaped(b: Seq<u8>) -> Seq<char>
    decreases b.len(),
{
    if b.len() == 0 {
        Seq::empty()
    } else {
        let x = b.last();
        escaped(b.drop_last()) + if is_plain(x) {
            seq![x as char]
        } else {
            seq!['%', upper_hex(x as int / 16), upper_hex(x as int % 16)]
        }
    }
}

/// The parts of a path in an address, each after a slash.
pub open spec fn escaped_parts(cs: Seq<PartView>) -> Seq<char>
    decreases cs.len(),
{
    if cs.len() == 0 {
        Seq::empty()
    } else {
        escaped_parts(cs.drop_last()).push('/') + escaped(part_bytes(cs.last()))
    }
}

/// The address of an absolute path.
pub open spec fn file_url(path: Seq<u8>) -> Option<Seq<char>> {
    let cs = parts(path);
    if path.len() == 0 || path[0] != 47u8 {
        None
    } else if cs.len() == 1 {
        Some("file:///"@)
    } else {
        Some("file://"@ + escaped_parts(cs.skip(1)))
    }
}

/// `url::Url::from_file_path` and the address's text: of an absolute path, the
/// scheme and each component after a slash, percent-encoded where needed; of the root
/// a lone slash; of a relative path nothing. As on a Unix system.
#[verifier::external_body]
fn url_of_path(path: &str) -> (res: Option<String>)
    ensures
        opt_text(res) == file_url(encode_utf8(path@)),
{
    url::Url::from_file_path(path).ok().map(|u| u.to_string())
}

/// The addresses, one on a line, each line ended by a line feed; what has no address
/// is left out.
pub open spec fn url_lines(urls: Seq<Option<Seq<char>>>) -> Seq<char>
    decreases urls.len(),
{
    if urls.len() == 0 {
        Seq::empty()
    } else {
        let before = url_lines(urls.drop_last());
        match urls.last() {
            Some(u) => (before + u).push('\n'),
            None => before,
        }
    }
}

/// The addresses as a list, one on a line.
pub fn uri_list_of(urls: &Vec<Option<String>>) -> (res: String)
    ensures
        res@ == url_lines(Seq::new(urls@.len(), |i: int| opt_text(urls@[i]))),
{
    let ghost all = Seq::new(urls@.len(), |i: int| opt_text(urls@[i]));
    let mut out = String::new();
    let mut i: usize = 0;
    assert(all.take(0) =~= Seq::empty());
    while i < urls.len()
        invariant
            i <= urls@.len(),
            all == Seq::new(urls@.len(), |i: int| opt_text(urls@[i])),
            out@ == url_lines(all.take(i as int)),
        decreases urls@.len() - i,
    {
        let ghost next = all.take(i + 1);
        assert(next.drop_last() =~= all.take(i as int));
        assert(next.last() == opt_text(urls@[i as int]));
        if let Some(u) = &urls[i] {
            out.append(u.as_str());
            out.push('\n');
        }
        i += 1;
    }
    assert(all.take(i as int) =~= all);
    out
}

/// The addresses of paths.
pub open spec fn file_urls(paths: Seq<Seq<char>>) -> Seq<Option<Seq<char>>> {
    paths.map_values(|p: Seq<char>| file_url(encode_utf8(p)))
}

/// A list of the addresses of files, one on a line. A directory's address has no slash
/// at its end: with one, some file managers copy what it holds in its place.
pub fn build_uri_list(paths: &Vec<String>) -> (res: String)
    ensures
        res@ == url_lines(file_urls(paths.deep_view())),
{
    let mut urls: Vec<Option<String>> = Vec::new();
    let mut i: usize = 0;
    while i < paths.len()
        invariant
            i <= paths@.len(),
            urls@.len() == i,
            forall|j: int|
                0 <= j < i ==> opt_text(#[trigger] urls@[j]) == file_url(encode_utf8(paths@[j]@)),
        decreases paths@.len() - i,
    {
        urls.push(url_of_path(paths[i].as_str()));
        i += 1;
    }
    assert(Seq::new(urls@.len(), |i: int| opt_text(urls@[i])) =~= file_urls(paths.deep_view()));
    uri_list_of(&urls)
}

/// A character of an escaped name: visible, of ASCII, and no slash.
pub open spec fn is_escaped_char(c: char) -> bool {
    '!' <= c <= '~' && c != '/'
}

proof fn lemma_escaped(b: Seq<u8>)
    ensures
        b.len() > 0 ==> escaped(b).len() > 0,
        forall|i: int| 0 <= i < escaped(b).len() ==> is_escaped_char(#[trigger] escaped(b)[i]),
    decreases b.len(),
{
    if b.len() > 0 {
        lemma_escaped(b.drop_last());
        let h = escaped(b.drop_last());
        assert forall|i: int| 0 <= i < escaped(b).len() implies is_escaped_char(
            #[trigger] escaped(b)[i],
        ) by {
            if i < h.len() {
                assert(escaped(b)[i] == h[i]);
            }
        }
    }
}

proof fn lemma_body_parts(p: Seq<u8>, leading: bool)
    ensures
        forall|i: int|
            0 <= i < crate::path::body_parts(p, leading).len() ==> part_bytes(
                #[trigger] crate::path::body_parts(p, leading)[i],
            ).len() > 0,
    decreases p.len(),
{
    let i = crate::path::slash(p) as int;
    let b = crate::path::body_parts(p, leading);
    if i < p.len() {
        let h = crate::path::piece(p.take(i), leading);
        let t = crate::path::body_parts(p.skip(i + 1), false);
        lemma_body_parts(p.skip(i + 1), false);
        assert forall|k: int| 0 <= k < b.len() implies part_bytes(#[trigger] b[k]).len() > 0 by {
            if k < h.len() {
                assert(b[k] == h[k]);
            } else {
                assert(b[k] == t[k - h.len()]);
            }
        }
    }
}

proof fn lemma_escaped_parts(cs: Seq<PartView>)
    requires
        forall|i: int| 0 <= i < cs.len() ==> part_bytes(#[trigger] cs[i]).len() > 0,
    ensures
        forall|i: int|
            0 <= i < escaped_parts(cs).len() ==> '!' <= #[trigger] escaped_parts(cs)[i] <= '~',
        cs.len() > 0 ==> escaped_parts(cs).len() >= 2 && escaped_parts(cs)[0] == '/'
            && escaped_parts(cs)[1] != '/',
    decreases cs.len(),
{
    if cs.len() > 0 {
        let t = cs.drop_last();
        assert forall|i: int| 0 <= i < t.len() implies part_bytes(#[trigger] t[i]).len() > 0 by {
            assert(t[i] == cs[i]);
        }
        lemma_escaped_parts(t);
        let b = part_bytes(cs.last());
        assert(part_bytes(cs[cs.len() - 1]).len() > 0);
        lemma_escaped(b);
        let e = escaped_parts(cs);
        let h = escaped_parts(t);
        assert forall|i: int| 0 <= i < e.len() implies '!' <= #[trigger] e[i] <= '~' by {
            if i < h.len() {
                assert(e[i] == h[i]);
            } else if i > h.len() {
                assert(e[i] == escaped(b)[i - h.len() - 1]);
            }
        }
        if t.len() == 0 {
            assert(e[1] == escaped(b)[0]);
        } else {
            assert(e[0] == h[0] && e[1] == h[1]);
        }
    }
}

/// A file's address starts with `file:///`, with three slashes and no more, and holds
/// visible characters of ASCII alone: it never breaks a line.
pub proof fn law_file_url_shape(path: Seq<u8>)
    ensures
        match file_url(path) {
            Some(u) => {
                &&& "file:///"@.is_prefix_of(u)
                &&& !"file:////"@.is_prefix_of(u)
                &&& forall|i: int| 0 <= i < u.len() ==> '!' <= #[trigger] u[i] <= '~'
            },
            None => path.len() == 0 || path[0] != 47u8,
        },
{
    reveal_strlit("file://");
    reveal_strlit("file:///");
    reveal_strlit("file:////");
    if let Some(u) = file_url(path) {
        let cs = parts(path);
        let rest = cs.skip(1);
        lemma_body_parts(path.skip(1), false);
        assert(rest =~= crate::path::body_parts(path.skip(1), false));
        lemma_escaped_parts(rest);
        let e = escaped_parts(rest);
        if cs.len() > 1 {
            assert(u.take(8) =~= "file:///"@);
            assert(u[8] == e[1]);
            assert("file:////"@[8] == '/');
            if "file:////"@.is_prefix_of(u) {
                assert(u.subrange(0, 9)[8] == '/');
            }
            assert forall|i: int| 0 <= i < u.len() implies '!' <= #[trigger] u[i] <= '~' by {
                if i >= 7 {
                    assert(u[i] == e[i - 7]);
                } else {
                    assert(u[i] == "file://"@[i]);
                }
            }
        } else {
            assert("file:///"@.len() == 8);
            assert(u.subrange(0, 8) =~= u);
        }
    }
}

/// A list of addresses is empty or ends with a line feed.
pub proof fn law_uri_list_ends_lines(urls: Seq<Option<Seq<char>>>)
    ensures
        url_lines(urls).len() > 0 ==> url_lines(urls).last() == '\n',
    decreases urls.len(),
{
    if urls.len() > 0 {
        law_uri_list_ends_lines(urls.drop_last());
    }
}

proof fn lemma_rendered_bytes(cs: Seq<PartView>, b: u8)
    requires
        b != 47u8,
        forall|i: int| 0 <= i < cs.len() ==> !part_bytes(#[trigger] cs[i]).contains(b),
    ensures
        !rendered(cs).contains(b),
    decreases cs.len(),
{
    if cs.len() > 0 {
        let init = cs.drop_last();
        assert forall|i: int| 0 <= i < init.len() implies !part_bytes(
            #[trigger] init[i],
        ).contains(b) by {
            assert(init[i] == cs[i]);
        }
        lemma_rendered_bytes(init, b);
        let h = rendered(init);
        let t = part_bytes(cs.last());
        assert(!part_bytes(cs[cs.len() - 1]).contains(b));
        let all = rendered(cs);
        if all.contains(b) {
            let k = choose|k: int| 0 <= k < all.len() && all[k] == b;
            if k < h.len() {
                assert(h[k] == b);
            } else if all.len() - t.len() <= k {
                assert(t[k - (all.len() - t.len())] == b);
            }
        }
    }
}

/// A path that is made of the root and of names, without a colon or a bar in them, has an
/// address of its own and is in its plain form.
pub proof fn law_names_have_own_addresses(cs: Seq<PartView>)
    requires
        cs.len() > 0,
        cs[0] == PartView::Root,
        forall|i: int|
            1 <= i < cs.len() ==> (#[trigger] cs[i]) is Name && crate::path::is_name(cs[i]->0)
                && !cs[i]->0.contains(0u8) && !cs[i]->0.contains(58u8) && !cs[i]->0.contains(124u8),
    ensures
        has_own_address(rendered(cs)),
        plain_form(rendered(cs)) == rendered(cs),
{
    assert(crate::path::are_parts(cs));
    crate::path::law_rendered_parts_are_read_back(cs);
    assert forall|i: int, b: u8|
        0 <= i < cs.len() && (b == 0 || b == 58 || b == 124) implies !(#[trigger] part_bytes(
        cs[i],
    ).contains(b)) by {}
    lemma_rendered_bytes(cs, 0u8);
    lemma_rendered_bytes(cs, 58u8);
    lemma_rendered_bytes(cs, 124u8);
}

/// The addresses in lines are those of each line, in order; a line gives its address, without
/// the white space around it, unless it is empty, a comment or one of the two words before
/// GNOME's list.
pub proof fn law_each_line_gives_its_address(a: Seq<Seq<char>>, b: Seq<Seq<char>>, line: Seq<char>)
    ensures
        urls_of_lines(a + b) == urls_of_lines(a) + urls_of_lines(b),
        ({
            let t = trimmed(line);
            let counts = t.len() > 0 && t[0] != '#' && t != "copy"@ && t != "cut"@;
            &&& counts && read_url(t) is Some ==> urls_of_lines(seq![line]) == seq![read_url(t)->0]
            &&& !counts || read_url(t) is None ==> urls_of_lines(seq![line]).len() == 0
        }),
    decreases b.len(),
{
    assert(seq![line].drop_last() =~= Seq::<Seq<char>>::empty());
    assert(urls_of_lines(Seq::<Seq<char>>::empty()) =~= Seq::<UrlView>::empty());
    assert(seq![line].last() == line);
    if let Some(u) = read_url(trimmed(line)) {
        if is_entry(trimmed(line)) {
            assert(urls_of_lines(seq![line]) =~= seq![u]);
        }
    }
    if b.len() == 0 {
        assert(a + b =~= a);
        assert(urls_of_lines(a) + urls_of_lines(b) =~= urls_of_lines(a));
    } else {
        law_each_line_gives_its_address(a, b.drop_last(), line);
        assert((a + b).drop_last() =~= a + b.drop_last());
        assert((a + b).last() == b.last());
        assert(urls_of_lines(a + b) =~= urls_of_lines(a) + urls_of_lines(b));
    }
}

/// An address of a file gives its local path; where it has a host in the place of the path's
/// first part, that goes before the rest. Other addresses give none.
pub proof fn law_local_path_of_an_address(u: UrlView)
    ensures
        u.scheme != "file"@ ==> local_path(u) is None,
        u.scheme == "file"@ && u.file_path is Some ==> local_path(u) == u.file_path,
        u.scheme == "file"@ && u.file_path is None ==> match u.host {
            Some(h) => if h.len() > 0 {
                local_path(u) == Some(encode_utf8("/"@ + h + u.path))
            } else {
                local_path(u) is None
            },
            None => local_path(u) is None,
        },
{
}

/// The local files of addresses are those of each of them, in order.
pub proof fn law_local_files_of_addresses(a: Seq<UrlView>, b: Seq<UrlView>, u: UrlView)
    ensures
        local_paths(a + b) == local_paths(a) + local_paths(b),
        local_paths(seq![u]) == match local_path(u) {
            Some(p) => seq![p],
            None => Seq::empty(),
        },
{
    lemma_local_paths_of_two(a, b);
    assert(seq![u].drop_last() =~= Seq::<UrlView>::empty());
    assert(local_paths(Seq::<UrlView>::empty()) =~= Seq::<Seq<u8>>::empty());
    assert(seq![u].last() == u);
    assert(local_paths(seq![u]) =~= match local_path(u) {
        Some(p) => seq![p],
        None => Seq::empty(),
    });
}

/// A list holds the addresses that there are, in order, each ended by a line feed.
pub proof fn law_list_of_addresses(
    a: Seq<Option<Seq<char>>>,
    b: Seq<Option<Seq<char>>>,
    u: Seq<char>,
)
    ensures
        url_lines(a + b) == url_lines(a) + url_lines(b),
        url_lines(seq![Some(u)]) == u.push('\n'),
        url_lines(seq![None::<Seq<char>>]) == Seq::<char>::empty(),
{
    lemma_url_lines_of_two(a, b);
    let one = seq![Some(u)];
    let none = seq![None::<Seq<char>>];
    assert(one.drop_last() =~= Seq::<Option<Seq<char>>>::empty());
    assert(none.drop_last() =~= Seq::<Option<Seq<char>>>::empty());
    assert(url_lines(Seq::<Option<Seq<char>>>::empty()) =~= Seq::<char>::empty());
    assert(one.last() == Some(u));
    assert(none.last() is None);
    assert(url_lines(one) =~= u.push('\n'));
}

/// The extension of a file is what follows the last dot of its name, in lower case, wherever
/// the file lies.
pub proof fn law_extension_of_a_file(dir: Seq<u8>, stem: Seq<u8>, e: Seq<char>)
    requires
        stem.len() > 0,
        crate::path::is_name(stem.push(46u8) + encode_utf8(e)),
        !encode_utf8(e).contains(46u8),
    ensures
        lower_extension(crate::path::joined(dir, stem.push(46u8) + encode_utf8(e))) == lowered(e),
{
    let name = stem.push(46u8) + encode_utf8(e);
    crate::path::law_name_lies_in_its_directory(dir, name);
    crate::path::law_extension(stem, encode_utf8(e));
    encode_utf8_valid_utf8(e);
    encode_utf8_decode_utf8(e);
    let c = parts(crate::path::joined(dir, name));
    assert(c.last() == PartView::Name(name));
}

/// The type of a file is the one that its content gives away; else plain text for the seven
/// extensions of text, and bytes for any other.
pub proof fn law_type_of_a_file(content: Seq<char>, file: Seq<u8>)
    ensures
        file_mime(Some(content), file) == content,
        ({
            let e = lower_extension(file);
            let text = e == "txt"@ || e == "md"@ || e == "rs"@ || e == "toml"@ || e == "json"@ || e
                == "yaml"@ || e == "yml"@;
            file_mime(None, file) == if text {
                "text/plain;charset=utf-8"@
            } else {
                "application/octet-stream"@
            }
        }),
{
}

/// A list has the address of each path, in its place.
pub proof fn law_address_of_each_path(paths: Seq<Seq<char>>, i: int)
    requires
        0 <= i < paths.len(),
    ensures
        file_urls(paths).len() == paths.len(),
        file_urls(paths)[i] == file_url(encode_utf8(paths[i])),
        plain_forms(paths).len() == paths.len(),
        plain_forms(paths)[i] == rendered(parts(encode_utf8(paths[i]))),
{
}

/// The addresses in content are those of its lines.
pub proof fn law_addresses_in_content(bytes: Seq<u8>, ls: Seq<Seq<char>>)
    requires
        lossy(bytes) == crate::text::ended_lines(ls),
        forall|k: int|
            0 <= k < ls.len() ==> !(#[trigger] ls[k]).contains('\n') && (ls[k].len() > 0 ==> ls[k].last()
                != '\r'),
    ensures
        urls_in(bytes) == urls_of_lines(ls),
{
    crate::text::law_lines_are_read_back(ls, Seq::empty());
}

} // verus!
