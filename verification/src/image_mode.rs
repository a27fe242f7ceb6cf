//! How images are sent and put on the clipboard.

use crate::text::same;
use vstd::prelude::*;

verus! {

#[derive(Clone, Copy, Debug, PartialEq, Eq, Structural)]
pub enum ImageMode {
    /// As they are.
    Passthrough,
    /// Converted to PNG.
    ForcePng,
    /// As they are, with a PNG beside them on the clipboard.
    MultiMime,
    /// As they are, under the name of PNG.
    SpoofPng,
}

/// The mode that an argument names.
pub open spec fn mode_named(s: Seq<char>) -> Option<ImageMode> {
    if s == "passthrough"@ {
        Some(ImageMode::Passthrough)
    } else if s == "force-png"@ {
        Some(ImageMode::ForcePng)
    } else if s == "multi"@ || s == "multi-mime"@ {
        Some(ImageMode::MultiMime)
    } else if s == "spoof-png"@ || s == "fake-png"@ {
        Some(ImageMode::SpoofPng)
    } else {
        None
    }
}

/// What is said of an argument that names no mode.
pub open spec fn invalid_mode_text(s: Seq<char>) -> Seq<char> {
    "invalid --image-mode "@ + s + ", expected force-png|multi|passthrough|spoof-png"@
}

/// Reads a mode. The error is what to tell the user.
pub fn parse_image_mode(s: &str) -> (res: Result<ImageMode, String>)
    ensures
        match res {
            Ok(m) => mode_named(s@) == Some(m),
            Err(e) => mode_named(s@) is None && e@ == invalid_mode_text(s@),
        },
{
    if same(s, "passthrough") {
        return Ok(ImageMode::Passthrough);
    }
    if same(s, "force-png") {
        return Ok(ImageMode::ForcePng);
    }
    if same(s, "multi") || same(s, "multi-mime") {
        return Ok(ImageMode::MultiMime);
    }
    if same(s, "spoof-png") || same(s, "fake-png") {
        return Ok(ImageMode::SpoofPng);
    }
    let mut e = String::new();
    e.append("invalid --image-mode ");
    e.append(s);
    e.append(", expected force-png|multi|passthrough|spoof-png");
    assert(e@ =~= invalid_mode_text(s@));
    Err(e)
}

/// The argument for a mode.
pub open spec fn mode_arg(m: ImageMode) -> Seq<char> {
    match m {
        ImageMode::Passthrough => "passthrough"@,
        ImageMode::ForcePng => "force-png"@,
        ImageMode::MultiMime => "multi"@,
        ImageMode::SpoofPng => "spoof-png"@,
    }
}

/// The argument for a mode.
pub fn image_mode_as_cli_arg(m: ImageMode) -> (res: &'static str)
    ensures
        res@ == mode_arg(m),
{
    match m {
        ImageMode::Passthrough => "passthrough",
        ImageMode::ForcePng => "force-png",
        ImageMode::MultiMime => "multi",
        ImageMode::SpoofPng => "spoof-png",
    }
}

/// A mode's argument names that mode.
pub proof fn law_arg_names_mode(m: ImageMode)
    ensures
        mode_named(mode_arg(m)) == Some(m),
{
    reveal_strlit("passthrough");
    reveal_strlit("force-png");
    reveal_strlit("multi");
    reveal_strlit("multi-mime");
    reveal_strlit("spoof-png");
    reveal_strlit("fake-png");
    assert("force-png"@.len() == 9 && "passthrough"@.len() == 11 && "multi"@.len() == 5
        && "multi-mime"@.len() == 10 && "spoof-png"@.len() == 9 && "fake-png"@.len() == 8);
    assert("force-png"@[0] == 'f');
    assert("spoof-png"@[0] == 's');
}

/// Six words name a mode, and nothing else does.
pub proof fn law_which_words_name_a_mode(s: Seq<char>)
    ensures
        mode_named(s) is Some <==> s == "passthrough"@ || s == "force-png"@ || s == "multi"@ || s
            == "multi-mime"@ || s == "spoof-png"@ || s == "fake-png"@,
        mode_named("multi-mime"@) == mode_named("multi"@),
        mode_named("fake-png"@) == mode_named("spoof-png"@),
{
    law_arg_names_mode(ImageMode::MultiMime);
    law_arg_names_mode(ImageMode::SpoofPng);
    reveal_strlit("passthrough");
    reveal_strlit("force-png");
    reveal_strlit("multi");
    reveal_strlit("multi-mime");
    reveal_strlit("spoof-png");
    reveal_strlit("fake-png");
    assert("multi-mime"@.len() == 10 && "fake-png"@.len() == 8 && "passthrough"@.len() == 11
        && "force-png"@.len() == 9 && "multi"@.len() == 5);
}

/// What is said of an argument that names no mode gives the argument and the words that do.
pub proof fn law_what_is_said_of_an_invalid_mode(s: Seq<char>)
    ensures
        ("invalid --image-mode "@ + s).is_prefix_of(invalid_mode_text(s)),
        ", expected force-png|multi|passthrough|spoof-png"@.is_suffix_of(invalid_mode_text(s)),
{
    let l = invalid_mode_text(s);
    let h = "invalid --image-mode "@ + s;
    let t = ", expected force-png|multi|passthrough|spoof-png"@;
    assert(h =~= l.take(h.len() as int));
    assert(t =~= l.subrange(l.len() - t.len(), l.len() as int));
}

} // verus!
