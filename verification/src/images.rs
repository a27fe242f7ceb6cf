//! Images: their types, and what is sent for a file.

use crate::codec::{as_png, sniff, sniffed, to_png};
use crate::files::{lower_extension, lower_extension_of};
use crate::frame::{sender_name, sender_name_of};
use crate::hash::{sha256_hex, sha256_text};
use crate::image_mode::ImageMode;
use crate::message::{image_view, is_random_id, Message, MessageView};
use crate::path::join_text;
use crate::paths::{first_8, first_eight, in_dir};
use crate::text::{same, starts_with};
use vstd::prelude::*;

verus! {

/// The types of images that are handled.
pub fn image_mimes() -> (res: [&'static str; 4])
    ensures
        res@[0]@ == "image/png"@,
        res@[1]@ == "image/jpeg"@,
        res@[2]@ == "image/webp"@,
        res@[3]@ == "image/gif"@,
{
    ["image/png", "image/jpeg", "image/webp", "image/gif"]
}

/// A type of images that is handled.
pub open spec fn is_image_mime(m: Seq<char>) -> bool {
    m == "image/png"@ || m == "image/jpeg"@ || m == "image/webp"@ || m == "image/gif"@
}

/// Whether a type is one of images that are handled.
pub fn known_image_mime(m: &str) -> (res: bool)
    ensures
        res == is_image_mime(m@),
{
    let all = image_mimes();
    same(m, all[0]) || same(m, all[1]) || same(m, all[2]) || same(m, all[3])
}

/// The type of an image, given what its content gives away: that where it is an
/// image's, else what the file's extension stands for.
pub open spec fn image_mime(content: Option<Seq<char>>, file: Seq<u8>) -> Option<Seq<char>> {
    let e = lower_extension(file);
    if content is Some && "image/"@.is_prefix_of(content->0) {
        content
    } else if e == "png"@ {
        Some("image/png"@)
    } else if e == "jpg"@ || e == "jpeg"@ {
        Some("image/jpeg"@)
    } else if e == "webp"@ {
        Some("image/webp"@)
    } else if e == "gif"@ {
        Some("image/gif"@)
    } else {
        None
    }
}

/// The type of an image, given what its content gives away.
pub fn image_mime_of(content: Option<&str>, file: &[u8]) -> (res: Option<String>)
    ensures
        crate::wire::opt_text(res) == image_mime(
            match content {
                Some(m) => Some(m@),
                None => None,
            },
            file@,
        ),
{
    if let Some(m) = content {
        if starts_with(m, "image/") {
            return Some(m.to_string());
        }
    }
    let ext = lower_extension_of(file);
    let e = ext.as_str();
    if same(e, "png") {
        Some("image/png".to_string())
    } else if same(e, "jpg") || same(e, "jpeg") {
        Some("image/jpeg".to_string())
    } else if same(e, "webp") {
        Some("image/webp".to_string())
    } else if same(e, "gif") {
        Some("image/gif".to_string())
    } else {
        None
    }
}

/// The type of an image with the given content.
pub fn detect_image_mime(bytes: &[u8], file: &[u8]) -> (res: Option<String>)
    ensures
        crate::wire::opt_text(res) == image_mime(sniffed(bytes@), file@),
{
    image_mime_of(sniff(bytes), file)
}

/// The extension of files with a type of images.
pub open spec fn image_extension(mime: Seq<char>) -> Option<Seq<char>> {
    if mime == "image/png"@ {
        Some("png"@)
    } else if mime == "image/jpeg"@ || mime == "image/jpg"@ {
        Some("jpg"@)
    } else if mime == "image/webp"@ {
        Some("webp"@)
    } else if mime == "image/gif"@ {
        Some("gif"@)
    } else {
        None
    }
}

/// The extension of files with a type of images.
pub fn image_ext_from_mime(mime: &str) -> (res: Option<&'static str>)
    ensures
        match res {
            Some(e) => image_extension(mime@) == Some(e@),
            None => image_extension(mime@) is None,
        },
{
    if same(mime, "image/png") {
        Some("png")
    } else if same(mime, "image/jpeg") || same(mime, "image/jpg") {
        Some("jpg")
    } else if same(mime, "image/webp") {
        Some("webp")
    } else if same(mime, "image/gif") {
        Some("gif")
    } else {
        None
    }
}

/// Why an image is not sent.
#[derive(Debug)]
pub enum SendImageError {
    /// It is larger than allowed.
    TooLarge,
    /// Its type cannot be told.
    UnknownType,
    /// Its type is not handled.
    Unsupported(String),
    /// It cannot be converted to PNG.
    Png,
}

/// Why an image is not sent.
pub enum SendImageErrorView {
    TooLarge,
    UnknownType,
    Unsupported(Seq<char>),
    Png,
}

impl View for SendImageError {
    type V = SendImageErrorView;

    open spec fn view(&self) -> SendImageErrorView {
        match self {
            SendImageError::TooLarge => SendImageErrorView::TooLarge,
            SendImageError::UnknownType => SendImageErrorView::UnknownType,
            SendImageError::Unsupported(m) => SendImageErrorView::Unsupported(m@),
            SendImageError::Png => SendImageErrorView::Png,
        }
    }
}

/// What is sent for an image file, as type and bytes: the file itself, or a PNG where
/// the mode asks for one.
pub open spec fn image_to_send(
    bytes: Seq<u8>,
    mime: Option<Seq<char>>,
    max_bytes: nat,
    mode: ImageMode,
    png: Option<Seq<u8>>,
) -> Result<(Seq<char>, Seq<u8>), SendImageErrorView> {
    if bytes.len() > max_bytes {
        Err(SendImageErrorView::TooLarge)
    } else {
        match mime {
            None => Err(SendImageErrorView::UnknownType),
            Some(m) => if !is_image_mime(m) {
                Err(SendImageErrorView::Unsupported(m))
            } else if mode == ImageMode::ForcePng {
                match png {
                    Some(p) => Ok(("image/png"@, p)),
                    None => Err(SendImageErrorView::Png),
                }
            } else {
                Ok((m, bytes))
            },
        }
    }
}

/// What is sent for an image file, as type and bytes.
pub fn prepare_image(bytes: Vec<u8>, file: &[u8], max_bytes: usize, mode: ImageMode) -> (res: Result<
    (String, Vec<u8>),
    SendImageError,
>)
    ensures
        match image_to_send(
            bytes@,
            image_mime(sniffed(bytes@), file@),
            max_bytes as nat,
            mode,
            as_png(bytes@),
        ) {
            Ok(t) => res is Ok && res->Ok_0.0@ == t.0 && res->Ok_0.1@ == t.1,
            Err(e) => res is Err && res->Err_0@ == e,
        },
{
    if bytes.len() > max_bytes {
        return Err(SendImageError::TooLarge);
    }
    let mime = match detect_image_mime(bytes.as_slice(), file) {
        Some(m) => m,
        None => return Err(SendImageError::UnknownType),
    };
    if !known_image_mime(mime.as_str()) {
        return Err(SendImageError::Unsupported(mime));
    }
    if mode == ImageMode::ForcePng {
        match to_png(bytes.as_slice()) {
            Ok(p) => Ok(("image/png".to_string(), p)),
            Err(_) => Err(SendImageError::Png),
        }
    } else {
        Ok((mime, bytes))
    }
}

/// An image message with its sender's name and its digest.
pub open spec fn signed_image(m: MessageView, device_name: Seq<char>) -> MessageView {
    MessageView {
        sender_name: sender_name(device_name),
        sha256: Some(
            sha256_text(
                match m.payload {
                    Some(p) => p,
                    None => Seq::empty(),
                },
            ),
        ),
        ..m
    }
}

/// The message for an image.
pub fn image_message(
    device_id: &str,
    device_name: &str,
    room: &str,
    mime: &str,
    bytes: Vec<u8>,
) -> (res: Message)
    ensures
        is_random_id(res.event_id@),
        res@ == signed_image(
            image_view(res.event_id@, res.ts, device_id@, room@, mime@, bytes@),
            device_name@,
        ),
{
    let sha = sha256_hex(bytes.as_slice());
    let mut m = Message::new_image(device_id, room, mime, bytes);
    m.sender_name = sender_name_of(device_name);
    m.sha256 = Some(sha);
    m
}

/// Where a copy of a sent image is kept for preview: a directory named after the
/// digest, and a file in it.
pub open spec fn preview_path(received: Seq<u8>, sha: Seq<char>, mime: Seq<char>) -> Seq<u8> {
    in_dir(
        in_dir(received, first_eight(sha)),
        "image."@ + match image_extension(mime) {
            Some(e) => e,
            None => "bin"@,
        },
    )
}

/// The directory and the file for the preview of a sent image.
pub fn preview_paths(received: &[u8], sha: &str, mime: &str) -> (res: (Vec<u8>, Vec<u8>))
    requires
        crate::paths::can_cut_8(sha@),
    ensures
        res.0@ == in_dir(received@, first_eight(sha@)),
        res.1@ == preview_path(received@, sha@, mime@),
{
    let dir = join_text(received, first_8(sha));
    let mut name = String::new();
    name.append("image.");
    match image_ext_from_mime(mime) {
        Some(e) => {
            name.append(e);
        },
        None => {
            name.append("bin");
        },
    }
    let file = join_text(dir.as_slice(), name.as_str());
    (dir, file)
}

/// An image is sent where it is not too large and its type is handled: as it is, or as the PNG
/// made of it where the mode asks for PNG.
pub proof fn law_which_images_are_sent(
    bytes: Seq<u8>,
    mime: Seq<char>,
    max: nat,
    mode: ImageMode,
    png: Option<Seq<u8>>,
)
    ensures
        ({
            let r = image_to_send(bytes, Some(mime), max, mode, png);
            let handled = mime == "image/png"@ || mime == "image/jpeg"@ || mime == "image/webp"@
                || mime == "image/gif"@;
            &&& bytes.len() <= max && handled && mode != ImageMode::ForcePng ==> r == Ok::<
                (Seq<char>, Seq<u8>),
                SendImageErrorView,
            >((mime, bytes))
            &&& bytes.len() <= max && handled && mode == ImageMode::ForcePng && png is Some ==> r
                == Ok::<(Seq<char>, Seq<u8>), SendImageErrorView>(("image/png"@, png->0))
            &&& r is Ok ==> bytes.len() <= max && handled && (mode == ImageMode::ForcePng ==> png is Some)
            &&& bytes.len() > max ==> r == Err::<(Seq<char>, Seq<u8>), SendImageErrorView>(
                SendImageErrorView::TooLarge,
            )
            &&& bytes.len() <= max && !handled ==> r == Err::<
                (Seq<char>, Seq<u8>),
                SendImageErrorView,
            >(SendImageErrorView::Unsupported(mime))
            &&& bytes.len() <= max ==> image_to_send(bytes, None, max, mode, png) == Err::<
                (Seq<char>, Seq<u8>),
                SendImageErrorView,
            >(SendImageErrorView::UnknownType)
        }),
{
}

/// What the content of a file gives away as an image's type counts, whatever the file is
/// called; else its extension does.
pub proof fn law_content_comes_before_the_name(kind: Seq<char>, file: Seq<u8>, other: Seq<u8>)
    ensures
        image_mime(Some("image/"@ + kind), file) == Some("image/"@ + kind),
        !"image/"@.is_prefix_of(kind) ==> image_mime(Some(kind), file) == image_mime(None, file),
        lower_extension(file) == lower_extension(other) ==> image_mime(None, file) == image_mime(
            None,
            other,
        ),
{
    let s = "image/"@ + kind;
    assert("image/"@ =~= s.take("image/"@.len() as int));
}

/// A file with the extension of a type is of that type.
pub proof fn law_extension_and_type_agree(mime: Seq<char>, file: Seq<u8>)
    requires
        mime == "image/png"@ || mime == "image/jpeg"@ || mime == "image/webp"@ || mime
            == "image/gif"@,
        image_extension(mime) == Some(lower_extension(file)),
    ensures
        image_mime(None, file) == Some(mime),
{
    reveal_strlit("image/png");
    reveal_strlit("image/jpeg");
    reveal_strlit("image/jpg");
    reveal_strlit("image/webp");
    reveal_strlit("image/gif");
    reveal_strlit("png");
    reveal_strlit("jpg");
    reveal_strlit("jpeg");
    reveal_strlit("webp");
    reveal_strlit("gif");
    assert("image/png"@[6] == 'p');
    assert("image/jpeg"@[6] == 'j');
    assert("image/jpg"@[6] == 'j');
    assert("image/webp"@[6] == 'w');
    assert("image/gif"@[6] == 'g');
    assert("png"@[0] == 'p');
    assert("jpg"@[0] == 'j');
    assert("jpeg"@[0] == 'j');
    assert("webp"@[0] == 'w');
    assert("gif"@[0] == 'g');
}

/// Signing an image adds the sender's name and the digest of the bytes that are sent; what is
/// sent stays as it was.
pub proof fn law_signing_keeps_the_image(m: MessageView, name: Seq<char>, bytes: Seq<u8>)
    requires
        m.payload == Some(bytes),
    ensures
        ({
            let s = signed_image(m, name);
            &&& s.payload == Some(bytes)
            &&& s.sha256 == Some(sha256_text(bytes))
            &&& s.sender_name == sender_name(name)
            &&& s.kind == m.kind && s.room == m.room && s.device_id == m.device_id && s.mime
                == m.mime && s.event_id == m.event_id && s.ts == m.ts && s.name == m.name && s.size
                == m.size
        }),
{
}

/// The copy of an image for preview lies in a directory of the received files that is named
/// after its digest, with the extension of its type.
pub proof fn law_where_a_preview_lies(received: Seq<u8>, sha: Seq<char>, mime: Seq<char>)
    ensures
        image_extension(mime) matches Some(e) ==> preview_path(received, sha, mime)
            == crate::path::joined(
            crate::path::joined(received, vstd::utf8::encode_utf8(first_eight(sha))),
            vstd::utf8::encode_utf8("image."@ + e),
        ),
        image_extension(mime) is None ==> preview_path(received, sha, mime) == crate::path::joined(
            crate::path::joined(received, vstd::utf8::encode_utf8(first_eight(sha))),
            vstd::utf8::encode_utf8("image."@ + "bin"@),
        ),
        mime == "image/png"@ || mime == "image/jpeg"@ || mime == "image/webp"@ || mime
            == "image/gif"@ ==> image_extension(mime) is Some,
{
}

} // verus!
